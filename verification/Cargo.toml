[package]
name = "reqwest_rotate"
version = "0.1.0"
edition = "2021"
publish = false

[dependencies]
http = "1"
reqwest = { version = "0.13", default-features = false, features = ["query", "form", "json", "multipart", "stream"] }
serde = "1"
thiserror = "2"
tokio = { version = "1", features = ["time"] }
tracing = "0.1"
