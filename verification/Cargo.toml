[package]
name = "websocket_chatroom"
version = "0.1.0"
edition = "2021"
publish = false

[dependencies]
clap = { version = "4", features = ["derive"] }
eyre = "0.6"
futures-channel = "0.3"
futures-util = "0.3"
iced = { version = "0.8", default-features = false, features = ["glow", "tokio"] }
reqwest = { version = "0.11", default-features = false }
tokio = { version = "1", features = ["macros", "net", "rt-multi-thread", "sync", "time"] }
tokio-tungstenite = "0.20"
tracing = "0.1"
tracing-subscriber = "0.3"

[dev-dependencies]
serde_json = "1"
