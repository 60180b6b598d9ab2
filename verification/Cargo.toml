[package]
name = "homepages"
version = "0.1.0"
edition = "2021"
publish = false

[dependencies]
sha2 = "*"
base64 = "0.13"
uuid = { version = "*", features = ["v4"] }
chrono = "*"
sanitize-filename = "*"
serde = { version = "*", features = ["derive"] }
serde_json = "*"
actix-web = "*"
actix-files = "*"
actix-multipart = "*"
futures = "*"
kuchiki = "*"
