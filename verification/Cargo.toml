[package]
name = "fowner"
version = "0.1.0"
edition = "2021"
publish = false

[dependencies]
actix-cors = "0.6"
actix-files = "0.6"
actix-web = "4"
awc = "3"
chrono = { version = "0.4", features = ["serde"] }
clap = { version = "3", features = ["derive"] }
env_logger = "0.9"
log = "0.4"
r2d2 = "0.8"
r2d2_sqlite = { version = "*", features = ["bundled"] }
regex = "1"
rusqlite_migration = "*"
serde = { version = "1", features = ["derive"] }
serde_json = "1"
serde_with = "3"
thiserror = "1"
