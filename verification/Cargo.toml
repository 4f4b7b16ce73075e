[package]
name = "irc_client"
version = "0.1.0"
edition = "2021"
publish = false

[dependencies]
chrono = { version = "0.4", default-features = false, features = ["clock", "std"] }
futures = "0.3"
itertools = "0.13"
log = "0.4"
iced = { version = "0.13", default-features = false, features = ["tiny-skia"] }
