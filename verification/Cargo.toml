[package]
name = "deploy_core"
version = "0.1.0"
edition = "2021"
publish = false

[dependencies]
uuid = { version = "1", features = ["v4"] }
chrono = "0.4"
actix-web = "4"
actix-cors = "*"
aws-config = "*"
aws-sdk-s3 = "*"
mongodb = "*"
serde = { version = "1", features = ["derive"] }
serde_json = "1"
tokio = { version = "1", features = ["full"] }
futures = "*"
bcrypt = "*"
dotenvy = "*"
