[package]
name = "arb_portfolio"
version = "0.1.0"
edition = "2021"
publish = false

[dependencies]
rust_decimal = "*"
csv = "*"
serde = { version = "*", features = ["derive"] }
toml = "*"
clap = { version = "*", features = ["derive"] }
