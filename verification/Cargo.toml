[package]
name = "ecargo"
version = "0.1.0"
edition = "2021"
publish = false

[dependencies]
anyhow = "*"
cargo_metadata = "*"
clap = { version = "*", features = ["derive"] }
directories = "*"
open = "*"
serde = { version = "*", features = ["derive"] }
toml = "*"
