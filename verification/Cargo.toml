[package]
name = "auth_core"
version = "0.1.0"
edition = "2021"
publish = false

[dependencies]
actix-cors = "*"
actix-web = "4"
async-trait = "*"
base64 = "0.22"
bcrypt = "*"
chrono = "0.4"
futures-util = "0.3"
jsonwebtoken = "9"
lettre = "*"
mongodb = "*"
rand = "0.9"
serde = { version = "1", features = ["derive"] }
serde_json = "1"
tokio = { version = "1", features = ["macros", "rt-multi-thread"] }
uuid = { version = "1", features = ["v4"] }
validator = "*"
