[package]
name = "heraclitus_compiler"
version = "0.1.0"
edition = "2021"
publish = false

[dependencies]
capitalize = "*"
colored = "2"
pad = "0.1"
serde = { version = "1", features = ["derive"] }
