[package]
name = "swd_debugger"
version = "0.1.0"
edition = "2021"
publish = false

[dependencies]
crc = "3"
goblin = "*"
clap = { version = "4", features = ["derive"] }
serde = { version = "1", features = ["derive"] }
serde_json = "1"
serialport = { version = "4", default-features = false }
rusb = "*"
socketioxide = "*"
tokio = { version = "1", features = ["rt-multi-thread", "macros", "time"] }
tracing = "0.1"
tracing-subscriber = "0.3"
