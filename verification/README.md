# irc_client

The client side of an IRC session, with its behaviour stated in contracts and proved by Verus.

- `src/client.rs` and `src/client/`: a client. What it knows of the session, what it sends, and what
  each message of the server means. `dispatch.rs` says what becomes of a message, the modules beside
  it treat the single commands, and the `*_laws.rs` modules and `laws.rs` hold what is proved of them
  together.
- `src/handle.rs`, `src/client_map.rs`, `src/sender.rs`: handles on clients, the clients of all
  servers, and the queue through which they are asked.
- `src/grouping.rs`: putting many channels or users into few messages.
- `src/channel.rs`, `src/user.rs`: channels and the users in them.
- `src/proto.rs`, `src/message.rs`, `src/event.rs`, `src/isupport.rs`, `src/config.rs`,
  `src/buffer.rs`: messages, what they mean, and what can be set.
- `src/string_map.rs`, `src/text.rs`, `src/order.rs`, `src/number.rs`, `src/time.rs`: what the rest
  is built on.
- `app/`: a client on a connection, ordinary Rust around the library. It reads what has a syntax of
  its own, performs what the library decides, and shows windows.
- `tests/`: tests of the library.

The parts of a message that have a syntax of their own (users, modes, questions of other clients,
what a server supports) are read before the message is handed to the library, in
`message::Parsed`.
