[package]
name = "tokenomics_simulator"
version = "0.1.0"
edition = "2021"
publish = false

[dependencies]
rust_decimal = { version = "=1.36.0", features = ["maths"] }
rand = "=0.9.5"
uuid = { version = "=1.27.0", features = ["v4", "serde"] }
chrono = "=0.4.45"
serde = { version = "=1.0.229", features = ["derive"] }
thiserror = "=1.0.69"
reqwest = { version = "=0.12.28", default-features = false, features = ["blocking", "json"] }
