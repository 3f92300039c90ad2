[package]
name = "stock_cli"
version = "0.1.0"
edition = "2021"
publish = false

[dependencies]
actix = "0.13"
actix-rt = "2"
async-trait = "0.1"
chrono = "0.4"
clap = { version = "3", features = ["derive"] }
time = "0.3"
tokio = { version = "1", features = ["full"] }
warp = "0.3"
yahoo_finance_api = "*"
