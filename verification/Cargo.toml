[package]
name = "devapack"
version = "0.1.0"
edition = "2021"
publish = false

[dependencies]
base64 = "*"
clap = { version = "4", features = ["derive"] }
crossterm = "*"
dirs = "*"
ed25519-dalek = "1"
flate2 = "1"
getrandom = "0.2"
hex = "0.4"
indicatif = "*"
inquire = "*"
reqwest = { version = "*", default-features = false, features = ["json", "multipart"] }
serde = { version = "1", features = ["derive"] }
serde_json = "1"
sha2 = "0.10"
tar = "0.4"
tokio = { version = "1", features = ["rt-multi-thread", "macros"] }
wasmparser = "*"
