[package]
name = "patch-crate"
version = "0.1.9"
edition = "2021"
publish = false

[dependencies]
anyhow = "=1.0.104"
cargo_metadata = "=0.18.1"
clap = { version = "=4.6.7", features = ["derive"] }
fs_extra = "=1.3.0"
home = "=0.5.12"
paris = { version = "=1.5.15", features = ["macros"] }
serde_json = "=1.0.154"

[dev-dependencies]
toml = "=0.8.23"
