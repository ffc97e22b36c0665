[package]
name = "lanquetta"
version = "0.1.0"
edition = "2021"
publish = false

[dependencies]
prost = "=0.13.5"
prost-types = "=0.13.5"
prost-reflect = { version = "0.14", default-features = false }
bytes = "=1.12.1"
slab = "=0.4.12"
base64 = "=0.22.1"
chrono = { version = "=0.4.45", default-features = false, features = ["alloc", "std"] }
heck = "=0.5.0"
http = "=1.5.0"
shell-words = "=1.1.1"
serde = { version = "=1.0.229", features = ["derive"] }
serde_json = "=1.0.154"
anyhow = "=1.0.104"
iter-set = "=2.0.2"
tonic = { version = "=0.12.3", default-features = false }
