[package]
name = "forge"
version = "0.1.0"
edition = "2021"
publish = false

[dependencies]
regex = "1"
git2 = { version = "0.19", default-features = false }
ropey = "1"
serde = { version = "1", features = ["derive"] }
serde_json = "1"
toml = "0.8"
anyhow = "1"
dirs-next = "2"
tracing = "0.1"
tracing-subscriber = "0.3"
tokio = { version = "1", features = ["rt-multi-thread", "sync", "macros", "time"] }
reqwest = { version = "0.12", default-features = false, features = ["json"] }
async-trait = "0.1"
url = "2"
