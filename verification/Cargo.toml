[package]
name = "scrutin"
version = "0.1.0"
edition = "2021"
publish = false

[dependencies]
globset = "0.4"
xxhash-rust = { version = "0.8", features = ["xxh64"] }
serde = { version = "1", features = ["derive"] }
serde_json = "1"
toml = "0.8"
anyhow = "1"
clap = { version = "4", features = ["derive"] }
dirs = "5"
tempfile = "3"

[dev-dependencies]
tempfile = "3"
