[package]
name = "pgrust_nextest_repro"
version = "0.1.0"
edition = "2021"
publish = false

[dependencies]
anyhow = "1"
tokio = { version = "1", features = ["macros", "net", "rt", "time"] }
tokio-postgres = "0.7"
