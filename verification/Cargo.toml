[package]
name = "simon_core"
version = "0.1.0"
edition = "2021"
publish = false

[dependencies]
uuid = { version = "*", features = ["v4"] }
axum = "*"
bcrypt = "*"
chrono = "*"
clap = { version = "*", features = ["derive"] }
env_logger = "*"
jsonwebtoken = "*"
log = "*"
rand = "*"
reqwest = { version = "*", default-features = false, features = ["rustls-tls"] }
rusqlite = { version = "*", features = ["bundled"] }
serde = { version = "*", features = ["derive"] }
serde_json = "*"
sysinfo = "*"
tokio = { version = "*", features = ["macros", "rt-multi-thread", "time", "net"] }
