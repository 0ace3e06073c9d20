[package]
name = "xpenology_usb"
version = "0.1.0"
edition = "2021"
publish = false

[dependencies]
sha2 = "=0.10.9"
serde = { version = "1", features = ["derive"] }
reqwest = { version = "=0.12.28", default-features = false, features = ["blocking", "json", "rustls-tls"] }
flate2 = "1"
zip = { version = "2", default-features = false, features = ["deflate"] }
