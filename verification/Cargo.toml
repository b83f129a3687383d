[package]
name = "querybox"
version = "0.1.0"
edition = "2021"
publish = false

[dependencies]
chrono = "0.4"
csv = "1"
hex = "0.4"
sqlparser = "0.53"
unicode-segmentation = "1"
serde = { version = "1", features = ["derive"] }
serde_json = "1"
thiserror = "1"
tokio = { version = "1", features = ["rt-multi-thread", "sync", "time", "macros"] }
dirs = "5"
async-trait = "0.1"
rusqlite = { version = "0.31", features = ["bundled"] }
mysql_async = { version = "0.34", default-features = false, features = ["minimal"] }
tokio-postgres = "0.7"
keyring = { version = "3", default-features = false }
env_logger = "0.11"
