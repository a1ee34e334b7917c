[package]
name = "pushevent"
version = "0.1.0"
edition = "2021"
publish = false

[dependencies]
ws = "0.9"
futures-channel = "0.3"
futures-util = "0.3"
tokio = { version = "1", features = ["net", "rt", "rt-multi-thread"] }
tokio-tungstenite = "*"
tungstenite = "*"
