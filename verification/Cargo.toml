[package]
name = "claw-todo"
version = "0.1.0"
edition = "2021"
publish = false

[dependencies]
chrono = { version = "=0.4.45", default-features = false, features = ["clock", "std"] }
uuid = { version = "=1.29.0", features = ["v4"] }
serde = { version = "=1.0.229", features = ["derive"] }
serde_json = "=1.0.154"
sqlx = { version = "=0.8.6", default-features = false, features = ["sqlite", "runtime-tokio"] }
tokio = { version = "=1.54.1", features = ["rt", "macros", "fs"] }
directories = "=6.0.0"
clap = { version = "4", features = ["derive", "env"] }
