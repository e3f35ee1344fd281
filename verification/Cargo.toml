[package]
name = "creamy"
version = "0.1.0"
edition = "2021"
publish = false

[dependencies]
roxmltree = "*"
as-guard = "*"
binrw = "*"
strum = { version = "*", features = ["derive"] }
thiserror = "*"
