[package]
name = "exactauth"
version = "0.1.0"
edition = "2021"
publish = false

[dependencies]
rand = "0.8"
time = "0.3"
actix-web = "4"
tokio = { version = "1", features = ["rt-multi-thread", "macros", "time"] }
reqwest = { version = "0.12", default-features = false }
mysql = { version = "*", default-features = false }
serde = { version = "1", features = ["derive"] }
serde_json = "1"
envy = "0.4"
