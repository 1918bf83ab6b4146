[package]
name = "simplecommander"
version = "0.1.0"
edition = "2021"
publish = false

[dependencies]
egui = { version = "=0.37.0", default-features = false }
regex = "=1.13.1"
serde = { version = "=1.0.229", features = ["derive"] }
serde_json = "1"
sha2 = "0.10"
toml = "=1.1.8"
zip = { version = "=9.2.2", default-features = false, features = ["deflate"] }
