[package]
name = "conch"
version = "0.1.0"
edition = "2021"
publish = false

[dependencies]
uuid = { version = "=1.29.0", features = ["v4", "serde"] }
serde = { version = "=1.0.229", features = ["derive"] }
serde_json = "=1.0.154"
portable-pty = "=0.9.0"
dirs = "=7.0.0"
libc = "=0.2.191"
russh = "0.48"
tokio = { version = "1", features = ["rt-multi-thread", "net", "io-util", "process", "sync", "time"] }
async-trait = "0.1"
