[package]
name = "qxevent"
version = "0.1.0"
edition = "2021"
publish = false

[dependencies]
anyhow = "=1.0.104"
async-process = "=2.5.0"
async-sqlite = "=0.6.0"
async-trait = "=0.1.92"
chrono = "=0.4.45"
clap = { version = "=4.6.7", features = ["derive"] }
flexi_logger = "=0.31.10"
log = "=0.4.34"
rand = "=0.10.3"
rusqlite_migration = "=2.6.0"
serde = { version = "=1.0.229", features = ["derive"] }
serde_json = "=1.0.151"
serde_yaml = "=0.9.34"
shvclient = { version = "=12.0.2", features = ["smol"] }
shvproto = "=8.0.2"
shvrpc = "=22.0.0"
smol = "=2.0.2"
url = "=2.5.8"

[dev-dependencies]
rusqlite = { version = "=0.40.2", features = ["bundled"] }
