[package]
name = "rman"
version = "0.1.0"
edition = "2021"
publish = false

[dependencies]
zstd = "0.13"
rayon = "1"
reqwest = { version = "0.12", default-features = false, features = ["blocking", "rustls-tls"] }
serde = { version = "1", features = ["derive"] }
