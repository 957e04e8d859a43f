[package]
name = "postar"
version = "0.1.0"
edition = "2021"
publish = false

[dependencies]
regex = "=1.13.1"
mail-parser = "=0.11.9"
anyhow = "1"
ariadne = "=0.5.1"
clap = { version = "=4.6.7", features = ["derive"] }
clap_complete = "4"
dirs = "=6.0.0"
env_logger = "=0.11.11"
log = "0.4"
imap = "=2.4.1"
native-tls = "=0.2.18"
rusqlite = { version = "=0.40.2", features = ["bundled"] }
rusqlite_migration = "=2.6.0"
serde = { version = "1", features = ["derive"] }
toml = "=0.9.8"
