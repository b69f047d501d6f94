[package]
name = "chess_game"
version = "0.1.0"
edition = "2021"
publish = false

[dependencies]
rand = "0.8"
serde = { version = "1", features = ["derive"] }
bincode = "1"
ron = "0.8"
log = "0.4"
fern = "0.6"
chrono = "0.4"
colored = "2"
log-panics = { version = "2", features = ["with-backtrace"] }
ctrlc = "3"
spin_sleep = "1"
thiserror = "1"
lazy_static = "1"
