[package]
name = "coinprs"
version = "0.1.0"
edition = "2021"
publish = false

[dependencies]
chrono = "=0.4.45"
clap = "=4.6.7"
coingecko = "=1.1.3"
colored = "=2.2.0"
comfy-table = "=8.0.1"
config = "=0.11.0"
futures-util = "=0.3.34"
indicatif = "=0.17.11"
rust_decimal = "=1.43.0"
rusty-money = "=0.4.2"
tint = "=1.0.1"
tokio = { version = "=1.54.1", features = ["macros", "rt-multi-thread"] }
