[package]
name = "nago-rustls"
version = "0.1.0"
edition = "2021"
publish = false

[dependencies]
nagoya = "*"
rustls = { version = "0.23", default-features = false, features = ["ring", "std", "tls12"] }
rustls-pki-types = "1"
webpki-roots = "1"

[dev-dependencies]
rcgen = "0.14"
