[package]
name = "content_engine"
version = "0.1.0"
edition = "2021"
publish = false

[dependencies]
actix-cors = "0.6"
actix-multipart = "0.6"
actix-web = { version = "4", default-features = false, features = ["macros"] }
bson = "2"
chrono = "0.4"
dotenv = "0.15"
futures = "0.3"
futures-util = "0.3"
html2text = "0.6"
jsonwebtoken = "8"
mime = "0.3"
mongodb = "2"
percent-encoding = "2"
reqwest = { version = "0.11", default-features = false, features = ["json", "rustls-tls"] }
rusoto_core = { version = "0.48", default-features = false, features = ["rustls"] }
rusoto_s3 = { version = "0.48", default-features = false, features = ["rustls"] }
serde = { version = "1", features = ["derive"] }
serde_json = "1"
sha256 = { version = "1", default-features = false }
uuid = { version = "1", features = ["v4"] }
