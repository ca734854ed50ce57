# irc_suite

The logic of an IRC suite, written in Verus and proved against its
contracts:

- `src/casemap.rs` — `ascii`, `rfc1459` and `rfc1459-strict` name folding.
- `src/state.rs` — the server registry: user ids, live users, and the
  casemap-aware nickname index (`claim_nick`, `remove_user`, lookups).
- `src/tables.rs` — the `dashmap::DashMap` tables behind the registry, as
  trusted wrappers.
- `src/messaging.rs` — PRIVMSG/NOTICE routing to users and channels.
- `src/app.rs` — the GUI client's window model (networks, windows,
  scrollback, nick lists, focus, input submission).
- `src/command.rs`, `src/event.rs`, `src/text.rs` — the client's command and
  event types, and byte-to-text conversion.

`app/` holds the I/O around the library: the tokio connection driver, the
`bytes` adapters for routing, and the iced frontend. `tests/` exercises the
library on concrete values.
