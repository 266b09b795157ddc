[package]
name = "pinger"
version = "0.1.0"
edition = "2021"
publish = false

[dependencies]
anyhow = "*"
chrono = "*"
clap = { version = "*", features = ["derive"] }
ctrlc = "*"
rand = "*"
surge-ping = "*"
tokio = { version = "*", features = ["rt", "net", "time"] }

[dev-dependencies]
csv = "*"
serde_json = "*"
