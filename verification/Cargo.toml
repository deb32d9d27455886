[package]
name = "lightyear_shared"
version = "0.1.0"
edition = "2021"
publish = false

[dependencies]
bytes = "=1.12.1"
anyhow = "=1.0.104"
serde = { version = "=1.0.229", features = ["derive"] }
bitcode = "=0.6.9"
tracing = "=0.1.44"
bevy = { version = "0.12", default-features = false }

[dev-dependencies]
mock_instant = "=0.6.1"
