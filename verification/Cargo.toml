[package]
name = "defi_pool"
version = "0.1.0"
edition = "2021"
publish = false

[dependencies]
candid = "*"
ic-cdk = "*"
ic-cdk-macros = "*"
num-bigint = "*"
num-traits = "*"
once_cell = "*"
serde = { version = "*", features = ["derive"] }
