[package]
name = "risu"
version = "0.1.0"
edition = "2021"
publish = false

[dependencies]
bytes = "=1.12.1"
futures = "=0.3.34"
futures-core = "=0.3.34"
gxhash = "=2.3.1"
hyper = { version = "=1.12.0", features = ["server", "client", "http1", "http2"] }
hyper-util = { version = "=0.1.21", features = ["tokio"] }
log = "=0.4.34"
pin-project-lite = "=0.2.17"
prometheus = { version = "=0.13.4", default-features = false }
rand = "=0.8.8"
serde = { version = "=1.0.229", features = ["derive"] }
serde_yaml = "=0.9.34"
simplelog = "=0.12.2"
tokio = { version = "=1.54.1", features = ["rt-multi-thread", "net", "macros", "time"] }
