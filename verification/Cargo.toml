[package]
name = "eh_archiver"
version = "0.1.0"
edition = "2021"
publish = false

[dependencies]
anyhow = "=1.0.104"
axum = "=0.8.9"
clap = { version = "=4.6.7", features = ["derive", "env"] }
diesel = { version = "=2.3.14", features = ["sqlite"] }
env_logger = "=0.11.11"
libeh = "=0.1.1"
libsqlite3-sys = { version = "=0.38.2", features = ["bundled"] }
log = "=0.4.34"
reqwest = { version = "=0.11.27", default-features = false, features = ["blocking", "json"] }
serde = { version = "=1.0.229", features = ["derive"] }
serde_json = "=1.0.151"
tokio = { version = "=1.53.2", features = ["fs", "macros", "net", "rt-multi-thread", "sync"] }
zip = "=8.6.0"
