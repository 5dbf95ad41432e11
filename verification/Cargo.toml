[package]
name = "quinn_endpoint"
version = "0.1.0"
edition = "2021"
publish = false

[dependencies]
anyhow = "1"
bytes = "1"
clap = { version = "4", features = ["derive"] }
pin-project-lite = "0.2"
rcgen = "0.14"
rustc-hash = "2"
rustls = { version = "0.23", default-features = false, features = ["std", "ring"] }
socket2 = "0.6"
tokio = { version = "1", features = ["rt", "rt-multi-thread", "sync", "time"] }
tracing = "0.1"
