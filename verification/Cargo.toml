[package]
name = "tabulator"
version = "0.1.0"
edition = "2021"
publish = false

[dependencies]
unicode-width = "0.2"
itertools = "0.13"
clap = { version = "4", features = ["derive"] }
serde = { version = "1", features = ["derive"] }
serde_json = "1"
rust_decimal = "1"
num-bigint = "0.4"
