[package]
name = "nusave"
version = "0.1.0"
edition = "2021"
publish = false

[dependencies]
anstyle = "=1.0.14"
clap = { version = "=4.6.7", features = ["derive"] }
thiserror = "=2.0.21"
