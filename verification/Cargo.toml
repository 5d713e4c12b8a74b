[package]
name = "fluxy"
version = "0.1.0"
edition = "2021"
publish = false

[dependencies]
httparse = "*"
tokio = { version = "*", features = ["rt-multi-thread", "net", "time", "io-util", "sync", "macros"] }
hyper = { version = "*", features = ["client", "http1"] }
hyper-util = { version = "*", features = ["client-legacy", "http1", "tokio"] }
hyper-tls = "*"
http-body-util = "*"
native-tls = "*"
tokio-native-tls = "*"
kanal = "*"
maxminddb = "*"
trust-dns-resolver = "*"
clap = { version = "*", features = ["derive"] }
anyhow = "*"
fake = "*"
directories = "*"

[dev-dependencies]
serde_json = "*"
