[package]
name = "github_importer"
version = "0.1.0"
edition = "2021"
publish = false

[dependencies]
regex = "1"
argon2 = "0.5"
chacha20poly1305 = "0.10"
zeroize = "1"
serde = { version = "1", features = ["derive"] }
serde_json = "1"
reqwest = { version = "0.12", default-features = false, features = ["json", "rustls-tls"] }
tokio = { version = "1", features = ["process", "time", "rt-multi-thread", "macros"] }
thiserror = "2"
