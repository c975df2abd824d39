[package]
name = "viberot"
version = "0.1.0"
edition = "2021"
publish = false

[dependencies]
globset = "0.4"
base64 = "0.22"
tokio = { version = "1", features = ["rt-multi-thread", "process", "net", "sync", "signal", "io-util", "time", "macros"] }
serde = { version = "1", features = ["derive"] }
serde_json = "1"
toml = "*"
notify = "*"
dirs = "*"
