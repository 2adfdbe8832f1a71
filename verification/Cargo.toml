[package]
name = "rustycache"
version = "0.1.0"
edition = "2021"
publish = false

[dependencies]
chrono = { version = "0.4", default-features = false, features = ["std", "now"] }
tokio = { version = "1", default-features = false, features = ["rt", "sync", "time", "macros"] }
