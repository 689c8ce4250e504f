[package]
name = "fstree"
version = "0.1.0"
edition = "2021"
publish = false

[dependencies]
byte-unit = "*"
tokio = { version = "*", features = ["rt-multi-thread", "macros", "fs", "time"] }
futures-util = "*"
filesize = "*"
terminal_size = "*"
serde = { version = "*", features = ["derive"] }
serde_json = "*"
flate2 = "*"
chrono = "*"
