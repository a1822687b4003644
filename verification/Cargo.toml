[package]
name = "aletheia"
version = "0.1.0"
edition = "2021"
publish = false

[dependencies]
blake3 = "*"
semver = "*"
glob = "*"
serde = { version = "*", features = ["derive"] }
serde_json = "*"
serde_yaml = "*"
steamlocate = "*"
keyvalues-serde = "*"
