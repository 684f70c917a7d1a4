[package]
name = "write_router"
version = "0.1.0"
edition = "2021"
publish = false

[dependencies]
arrow = { version = "54", default-features = false }
clap = { version = "4", features = ["derive", "env"] }
datafusion = { version = "45", default-features = false }
