//! The client side of an IRC session.

pub mod buffer;
pub mod channel;
pub mod client;
pub mod client_map;
pub mod config;
pub mod event;
pub mod grouping;
pub mod handle;
pub mod isupport;
pub mod message;
pub mod number;
pub mod order;
pub mod proto;
pub mod sender;
pub mod settings;
pub mod string_map;
pub mod text;
pub mod time;
pub mod user;
