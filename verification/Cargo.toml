[package]
name = "vitrum"
version = "0.1.0"
edition = "2021"
publish = false

[dependencies]
which = "=8.0.6"
anyhow = "=1.0.104"
tracing = "=0.1.44"
tracing-subscriber = { version = "=0.3.23", features = ["env-filter"] }
clap = { version = "=4.6.7", features = ["derive"] }
dirs = "=7.0.0"
