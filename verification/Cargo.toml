[package]
name = "query_monitor"
version = "0.1.0"
edition = "2021"
publish = false

[dependencies]
sqlformat = "0.3"
anyhow = "1"
arboard = { version = "3", default-features = false }
chrono = "0.4"
crossterm = "0.27"
ratatui = "0.26"
serde = { version = "1", features = ["derive"] }
serde_json = "1"
syntect = { version = "5", default-features = false, features = ["default-fancy"] }
tokio = { version = "1", features = ["rt-multi-thread", "macros", "net", "io-util"] }
