[package]
name = "sourisdb"
version = "0.1.0"
edition = "2021"
publish = false

[dependencies]
hashbrown = "0.14"
http = "1"
reqwest = { version = "0.12", default-features = false }
serde = { version = "1", features = ["derive"] }
serde_json = "1"
