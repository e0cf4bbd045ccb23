[package]
name = "ooxmlsdk-build"
version = "0.1.0"
edition = "2021"
publish = false

[dependencies]
heck = "=0.5.0"
quick-xml = "=0.38.4"
serde = { version = "=1.0.229", features = ["derive"] }
serde_json = "=1.0.154"
thiserror = "=2.0.21"
zip = { version = "=9.1.0", default-features = false, features = ["deflate"] }
