[package]
name = "search_api"
version = "0.1.0"
edition = "2021"
publish = false

[dependencies]
md5 = "=0.8.1"
serde = { version = "=1.0.229", features = ["derive"] }
serde_json = "=1.0.151"
tokio = { version = "=1.53.2", features = ["rt-multi-thread", "macros"] }
async-channel = "=2.5.0"
oneshot = { version = "=0.2.1", features = ["std", "async"] }
isahc = "=2.0.1"
image = { version = "=0.25.10", default-features = false, features = ["png", "jpeg", "gif"] }
kmeans_colors = "=0.7.1"
palette = "=0.7.7"
