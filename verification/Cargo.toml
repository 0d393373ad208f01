[package]
name = "cryo"
version = "0.1.0"
edition = "2021"
publish = false

[dependencies]
thousands = "*"
serde = { version = "*", features = ["derive"] }
clap = { version = "*", features = ["derive"] }
tokio = { version = "*", features = ["full"] }
async-trait = "*"
chrono = "*"
colored = "*"
anstyle = "*"
color-print = "*"
polars = { version = "*", default-features = false, features = ["parquet"] }
