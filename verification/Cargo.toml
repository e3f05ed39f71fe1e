[package]
name = "elton"
version = "0.1.0"
edition = "2021"
publish = false

[dependencies]
anyhow = "=1.0.104"
actix-web = "=4.15.0"
chrono = { version = "=0.4.45", features = ["serde"] }
clap = { version = "=4.6.7", features = ["derive"] }
hyper = { version = "=0.14.32", features = ["client", "http1", "http2", "tcp"] }
hyper-tls = "=0.5.0"
log = "=0.4.34"
serde = { version = "=1.0.229", features = ["derive"] }
simple_logger = "=4.3.3"
sqlx = { version = "=0.8.6", features = ["runtime-tokio", "sqlite"] }
tokio = { version = "=1.53.2", features = ["macros", "rt-multi-thread", "sync", "time"] }
uuid = { version = "=1.27.0", features = ["v4"] }
