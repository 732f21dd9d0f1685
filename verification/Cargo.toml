[package]
name = "valeriyya"
version = "0.1.0"
edition = "2021"
publish = false

[dependencies]
humantime = "=2.4.0"
serde = { version = "=1.0.229", features = ["derive"] }
serde_json = "=1.0.151"
tokio = { version = "=1.53.2", features = ["rt-multi-thread", "macros", "sync", "time", "fs"] }
reqwest = { version = "=0.12.28", default-features = false, features = ["json"] }
