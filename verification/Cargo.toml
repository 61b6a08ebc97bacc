[package]
name = "raw_reader"
version = "0.1.0"
edition = "2021"
publish = false

[dependencies]
rustyline = { version = "11", features = ["derive"] }
sysinfo = "0.28"
