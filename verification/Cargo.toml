[package]
name = "bot_data"
version = "0.1.0"
edition = "2021"
publish = false

[dependencies]
aes-gcm = "=0.10.3"
aes-gcm-siv = "=0.11.1"
md5 = "=0.7.0"
rand = "=0.8.8"
url = "=2.5.8"
serde = { version = "=1.0.229", features = ["derive"] }
serde_json = "=1.0.154"
toml = "=0.8.23"
thiserror = "=1.0.69"
tokio = { version = "=1.54.1", features = ["macros", "rt-multi-thread", "signal"] }
reqwest = "=0.11.27"
serenity = { version = "=0.12.5", features = ["collector"] }
