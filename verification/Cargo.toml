[package]
name = "tagcache"
version = "0.1.0"
edition = "2021"
publish = false

[dependencies]
dashmap = "5"
actix-web = "4"
serde = { version = "1", features = ["derive"] }
tokio = { version = "1", features = ["rt"] }
