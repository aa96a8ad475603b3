[package]
name = "trainstatus"
version = "0.1.0"
edition = "2021"
publish = false

[dependencies]
anyhow = "=1.0.104"
chrono = "=0.4.45"
chrono-tz = "=0.10.4"
serde = { version = "=1.0.229", features = ["derive"] }
serde_json = "=1.0.154"
titlecase = "=3.6.0"
uuid = { version = "=1.29.0", features = ["v5", "v7"] }
geo = "=0.33.1"
regex = "=1.13.1"
blake3 = { version = "=1.8.7", features = ["pure"] }
gtfs-structures = { version = "*", default-features = false }
