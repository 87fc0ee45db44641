[package]
name = "milter_separator"
version = "0.1.0"
edition = "2021"
publish = false

[dependencies]
axum = "0.8"
base64 = "0.22"
bcrypt = "0.17"
chrono = "0.4"
chrono-tz = "0.10"
encoding_rs = "0.8"
hmac = "0.12"
mail-parser = "0.11"
mysql = { version = "26", default-features = false, features = ["minimal-rust"] }
rand = "0.8"
rusqlite = { version = "0.37", features = ["bundled"] }
serde = { version = "1", features = ["derive"] }
serde_json = "1"
sha2 = "0.10"
tokio = { version = "1", features = ["full"] }
tokio-postgres = "0.7"
uuid = { version = "1", features = ["v7"] }
zip = { version = "7", default-features = false, features = ["deflate"] }
