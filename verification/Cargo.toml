[package]
name = "const_decimal"
version = "0.1.0"
edition = "2021"
publish = false

[dependencies]
ruint = "*"
serde = { version = "*", features = ["derive"] }
thiserror = "*"
num-traits = "*"
