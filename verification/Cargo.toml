[package]
name = "tikv"
version = "0.1.0"
edition = "2021"
publish = false

[dependencies]
serde = { version = "1", features = ["derive"] }
serde_json = "1"
chrono = "0.4"
libc = "0.2"
url = "2"
thiserror = "1"

[dev-dependencies]
toml = "0.5"
