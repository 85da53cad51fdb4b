[package]
name = "krun"
version = "0.1.0"
edition = "2021"
publish = false

[dependencies]
anyhow = "*"
clap = { version = "*", features = ["derive"] }
dirs = "*"
git2 = { version = "*", default-features = false }
hex = "*"
rusqlite = { version = "*", features = ["bundled"] }
sha2 = "*"
tempfile = "*"
which = "*"
