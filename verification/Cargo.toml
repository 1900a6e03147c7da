[package]
name = "codec"
version = "0.1.0"
edition = "2021"
publish = false

[dependencies]
chrono = "0.4"
json = "0.12"
serde = { version = "1", features = ["derive"] }
serde_json = "1"
hyper = "0.10"
xdg = "2"
libc = "0.2"
rustc-serialize = "0.3"
