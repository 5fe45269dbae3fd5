[package]
name = "mdquiz"
version = "0.1.0"
edition = "2021"
publish = false

[dependencies]
pulldown-cmark = { version = "=0.13.6", default-features = false, features = ["html"] }
zip = { version = "=2.6.1", default-features = false, features = ["deflate"] }
roxmltree = "=0.21.2"
serde = { version = "=1.0.229", features = ["derive"] }
serde_norway = "=0.9.42"
clap = { version = "=4.6.7", features = ["derive"] }
anyhow = "=1.0.104"
thiserror = "=2.0.21"
tempfile = "=3.27.0"
