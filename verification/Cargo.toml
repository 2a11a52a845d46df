[package]
name = "inpedia"
version = "0.1.0"
edition = "2021"
publish = false

[dependencies]
anyhow = "=1.0.104"
chrono = "=0.4.45"
clap = { version = "=4.6.7", features = ["derive"] }
colored = "=2.2.0"
dialoguer = "=0.11.0"
dirs-next = "=2.0.0"
fastembed = { version = "=5.17.4", default-features = false, features = ["ort-load-dynamic", "hf-hub-rustls-tls"] }
rusqlite = { version = "=0.41.1", features = ["bundled"] }
serde = { version = "=1.0.229", features = ["derive"] }
serde_json = "=1.0.154"
similar = "=2.7.0"
tokio = { version = "=1.54.1", features = ["macros", "rt-multi-thread"] }
uuid = { version = "=1.29.1", features = ["v4"] }
