[package]
name = "rusty_collars"
version = "0.1.0"
edition = "2021"
publish = false

[dependencies]
anyhow = "1"
async-broadcast = "0.7"
async-executor = "1"
async-io = "2"
esp-idf-svc = "0.52"
futures-lite = "2"
log = "0.4"
picoserve = { version = "*", features = ["alloc", "ws"] }
rand = { version = "0.9", default-features = false, features = ["small_rng"] }
serde = { version = "1", features = ["derive"] }
serde_json = "1"
thiserror = "2"
url = "2"
uuid = "1"
