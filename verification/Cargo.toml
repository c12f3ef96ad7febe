[package]
name = "lol_esports_server"
version = "0.1.0"
edition = "2021"
publish = false

[dependencies]
chrono = "0.4"
serde_json = "1"
color-eyre = "0.6"
actix-web = "4"
aws-config = "0.54"
aws-sdk-dynamodb = "0.24"
serde_dynamo = { version = "4", features = ["aws-sdk-dynamodb+0_24"] }
tokio-stream = "0.1"
env_logger = "0.10"
log = "0.4"
lol-esports-api = "*"
derive_more = "0.99"
serde = { version = "1", features = ["derive"] }
