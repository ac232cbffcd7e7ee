[package]
name = "slurm_monitor"
version = "0.1.0"
edition = "2021"
publish = false

[dependencies]
anyhow = "1"
chrono = "0.4"
serde = { version = "1", features = ["derive"] }
serde_json = "1"
toml = "0.8"
ssh2 = "0.9"
tokio = { version = "1", features = ["rt", "time"] }
tracing = "0.1"
