[package]
name = "irc_suite"
version = "0.1.0"
edition = "2021"
publish = false

[dependencies]
bytes = "1"
dashmap = "6"
futures-util = "0.3"
iced = { version = "0.13", default-features = false, features = ["tiny-skia", "tokio"] }
tokio = { version = "1", features = ["rt-multi-thread", "net", "sync", "macros", "io-util"] }
tokio-util = { version = "0.7", features = ["codec"] }
tracing = "0.1"
