[package]
name = "nca"
version = "0.4.0"
edition = "2021"
publish = false

[dependencies]
arboard = { version = "3", default-features = false, features = ["image-data"] }
async-trait = "0.1"
image = { version = "0.25", default-features = false, features = ["png"] }
ratatui = { version = "0.29", default-features = false }
serde_json = "1"
thiserror = "2"
tokio = { version = "1", features = ["fs", "io-util", "macros", "net", "process", "rt", "sync", "time"] }
tracing = "0.1"
