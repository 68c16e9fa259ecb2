[package]
name = "ringi"
version = "0.1.0"
edition = "2021"
publish = false

[dependencies]
anyhow = "1"
cadw = "*"
clap = { version = "4", features = ["derive"] }
pacta = "*"
pacta-memory = "*"
rusqlite = { version = "*", features = ["bundled"] }
serde = { version = "1", features = ["derive"] }
serde_json = "1"
sha2 = "0.10"
shaahid = "*"
suunta = "*"
toml = "*"
uuid = { version = "1", features = ["v4", "v5", "serde"] }
wait-timeout = "0.2"
