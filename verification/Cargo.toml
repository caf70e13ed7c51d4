[package]
name = "stocks"
version = "0.1.0"
edition = "2021"

[dependencies]
ctrlc = "=3.5.2"
rand = "=0.8.8"
rand_chacha = "=0.3.1"
rand_distr = "=0.4.3"
serde = { version = "=1.0.229", features = ["derive"] }
serde_json = "1"
