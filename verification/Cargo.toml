[package]
name = "spilling_page_store"
version = "0.1.0"
edition = "2021"
publish = false

[dependencies]
arrow = { version = "*", default-features = false }
bytes = "1"
clap = { version = "4", features = ["derive"] }
parquet = { version = "*", default-features = false, features = ["arrow"] }
tempfile = "3"
