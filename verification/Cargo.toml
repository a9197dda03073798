[package]
name = "gg_core"
version = "0.1.0"
edition = "2021"
publish = false

[dependencies]
serde = { version = "=1.0.229", features = ["derive"] }
serde_json = "=1.0.154"
uuid = { version = "=1.29.0", features = ["v4"] }
dirs = "=7.0.0"
git2 = { version = "=0.21.0", default-features = false }
atty = "=0.2.14"
console = "=0.16.6"
regex = "=1.13.1"
fs2 = "0.4"
