[package]
name = "kfm_na"
version = "0.1.0"
edition = "2021"
publish = false

[dependencies]
serde_json = "1"
libc = "0.2"
zip = { version = "2", default-features = false, features = ["deflate"] }
tokio = { version = "1", features = ["rt", "net", "time", "sync", "macros"] }
tokio-tungstenite = "0.26"
futures-util = { version = "0.3", features = ["sink"] }
rustls = { version = "0.23", default-features = false, features = ["ring", "std", "tls12"] }
webpki-roots = "0.26"
