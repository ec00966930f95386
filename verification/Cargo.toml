[package]
name = "wust_socket"
version = "0.1.0"
edition = "2021"
publish = false

[dependencies]
async-trait = "*"
base64 = "*"
bytes = "*"
clap = { version = "*", features = ["derive"] }
flate2 = "*"
rand = "*"
rustls = { version = "*", default-features = false, features = ["ring", "std"] }
sha1 = "*"
tokio = { version = "*", features = ["rt-multi-thread", "macros", "net", "io-util", "sync", "time"] }
tokio-rustls = { version = "*", default-features = false, features = ["ring"] }
tracing = "*"
tracing-subscriber = { version = "*", features = ["env-filter"] }
