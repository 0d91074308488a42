[package]
name = "harraw"
version = "0.1.0"
edition = "2021"
publish = false

[dependencies]
rand = "=0.8.8"
serde_json = "=1.0.154"
num_cpus = "=1.17.0"
yaml-rust = "=0.4.5"
tokio = { version = "=1.54.1", features = ["rt-multi-thread", "time"] }
futures = "=0.3.34"
reqwest = { version = "=0.11.27", default-features = false, features = ["rustls-tls"] }
colored = "=2.2.0"
csv = "=1.4.0"

[dev-dependencies]
regex = "=1.13.1"
