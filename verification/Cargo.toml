[package]
name = "solidb_storage"
version = "0.1.0"
edition = "2021"
publish = false

[dependencies]
serde = { version = "=1.0.229", features = ["derive"] }
serde_json = "=1.0.154"
chrono = "=0.4.45"
lz4_flex = "=0.11.6"
uuid = { version = "=1.29.0", features = ["v4", "v7"] }
