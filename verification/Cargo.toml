[package]
name = "mitm_cache"
version = "0.1.0"
edition = "2021"
publish = false

[dependencies]
base64 = "*"
cap-std = "*"
clap = { version = "*", features = ["derive"] }
futures-util = "*"
http-body-util = "*"
hudsucker = "*"
hyper = { version = "*", features = ["client", "http1", "server"] }
hyper-rustls = "*"
hyper-util = { version = "*", features = ["client-legacy", "http1", "tokio"] }
regex = "*"
rustls-pemfile = "*"
serde = { version = "*", features = ["derive"] }
serde_json = "*"
sha2 = "*"
tokio = { version = "*", features = ["full"] }
