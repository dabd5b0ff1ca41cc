[package]
name = "chairmanmao"
version = "0.1.0"
edition = "2021"
publish = false

[dependencies]
rand = "0.8"
serde = { version = "1", features = ["derive"] }
serde_json = "1"
tokio = { version = "1", features = ["macros", "rt-multi-thread", "time", "sync"] }
futures-util = "0.3"
clap = { version = "3", features = ["derive"] }
twilight-gateway = "0.11"
twilight-http = "0.11"
twilight-model = "0.11"
twilight-util = { version = "0.11", features = ["builder"] }
mongodb = "2"
image = "0.24"
rusttype = "0.9"
