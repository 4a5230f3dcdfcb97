[package]
name = "qvole"
version = "0.2.3"
edition = "2021"
publish = false

[dependencies]
flume = "=0.11.1"
quinn = { version = "=0.11.12", default-features = false, features = ["runtime-tokio", "rustls-ring"] }
rand = "=0.8.8"
rcgen = "=0.13.2"
rustls = { version = "=0.23.46", default-features = false, features = ["ring", "std"] }
rustls-webpki = { version = "=0.103.16", default-features = false, features = ["ring", "std", "alloc"] }
sha2 = "=0.10.9"
socket2 = "=0.5.10"
thiserror = "=2.0.21"
time = { version = "=0.3.55", features = ["local-offset", "formatting", "parsing"] }
tokio = { version = "=1.54.1", features = ["full"] }
tokio-util = { version = "=0.7.20", features = ["rt"] }

[dev-dependencies]
ring = "=0.17.14"
x509-parser = { version = "=0.18.1", features = ["verify"] }
