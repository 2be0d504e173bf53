[package]
name = "leandas"
version = "0.1.0"
edition = "2021"
publish = false

[dependencies]
rayon = "1.12.0"
tracing = "0.1.44"
tracing-subscriber = { version = "0.3.23", features = ["env-filter"] }
