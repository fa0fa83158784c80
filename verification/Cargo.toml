[package]
name = "dircord"
version = "0.1.0"
edition = "2021"
publish = false

[dependencies]
anyhow = "1"
ellipse = "*"
fancy-regex = "0.11"
irc = { version = "0.15", default-features = false, features = ["ctcp", "tls-rust"] }
lazy_static = "1"
pulldown-cmark = { version = "0.9", default-features = false }
serde = { version = "1", features = ["derive"] }
serenity = "0.11"
tokio = { version = "1", features = ["full"] }
tokio-stream = "0.1"
toml = "0.5"
