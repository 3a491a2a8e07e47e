[package]
name = "c2rust_translate"
version = "0.2.0"
edition = "2021"
publish = false

[dependencies]
anyhow = "1"
chrono = "0.4"
clap = { version = "4", features = ["derive"] }
colored = "2"
inquire = "0.7"
prettyplease = "0.2"
quote = "1"
regex = "1"
serde = { version = "1", features = ["derive"] }
serde_json = "1"
shell-words = "1"
syn = { version = "2", features = ["full", "visit", "visit-mut"] }
tempfile = "3"
terminal_size = "0.4"
walkdir = "2"
