[package]
name = "tidekeeper"
version = "0.1.0"
edition = "2021"
publish = false

[dependencies]
zip = { version = "2", default-features = false, features = ["deflate"] }
sha2 = "0.10"
base64 = "0.22"
rand = "0.8"
serde = { version = "1", features = ["derive"] }
serde_json = "1"
sevenz-rust = "0.6"
reqwest = { version = "0.12", default-features = false, features = ["json", "blocking", "rustls-tls"] }
winreg = "0.52"
