[package]
name = "jmapsyncd"
version = "0.1.0"
edition = "2021"
publish = false

[dependencies]
anyhow = "1"
clap = { version = "4", features = ["derive", "env"] }
dirs = "*"
env_logger = "*"
log = "0.4"
rusqlite = { version = "*", features = ["bundled"] }
serde = { version = "1", features = ["derive"] }
serde_rusqlite = "*"
shellexpand = "*"
toml = "*"
uuid = { version = "1", features = ["v4"] }
