[package]
name = "carmine_api"
version = "0.1.0"
edition = "2021"
publish = false

[dependencies]
starknet = "*"
tokio = { version = "*", features = ["macros", "rt-multi-thread", "time"] }
futures = "*"
url = "*"
