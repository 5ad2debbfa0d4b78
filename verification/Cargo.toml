[package]
name = "superkbd"
version = "0.1.0"
edition = "2021"
publish = false

[dependencies]
chrono = "0.4"
arboard = "3"
enigo = "0.2"
sqlx = { version = "0.8", default-features = false, features = ["sqlite", "runtime-tokio"] }
tokio = { version = "1", features = ["rt-multi-thread", "macros", "time", "sync"] }
