[package]
name = "rocket_jam"
version = "0.1.0"
edition = "2021"
publish = false

[dependencies]
rand = "0.7"
uuid = { version = "0.8", features = ["v4"] }
serde = { version = "1", features = ["derive"] }
tokio = { version = "1", features = ["macros", "rt-multi-thread", "sync", "time"] }
tokio-stream = "0.1"
futures-util = "0.3"
warp = { version = "0.3", default-features = false }
sqlx = { version = "0.8", default-features = false, features = ["runtime-tokio", "postgres"] }
log = "0.4"
env_logger = "0.9"
