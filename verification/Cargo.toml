[package]
name = "traffic_jam"
version = "0.1.0"
edition = "2021"
publish = false

[dependencies]
async-stream = "*"
axum = { version = "*", features = ["ws"] }
dotenvy = "*"
futures = "*"
http = "*"
rand = "*"
reqwest = { version = "*", default-features = false, features = ["json"] }
serde = { version = "*", features = ["derive"] }
serde_json = "*"
tokio = { version = "*", features = ["full"] }
tower-http = { version = "*", features = ["cors"] }
