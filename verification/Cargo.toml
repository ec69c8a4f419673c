[package]
name = "grid_online"
version = "0.1.0"
edition = "2021"
publish = false

[dependencies]
rand = "0.9"
axum = { version = "0.8", features = ["ws"] }
clap = { version = "4", features = ["derive"] }
futures-util = "0.3"
serde = { version = "1", features = ["derive"] }
serde_json = "1"
tokio = { version = "1", features = ["macros", "rt-multi-thread", "net", "sync"] }
