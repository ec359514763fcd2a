[package]
name = "ucitap2json"
version = "0.1.0"
edition = "2021"

[dependencies]
shakmaty = "=0.29.4"
serde = { version = "*", features = ["derive"] }
serde_json = "*"
zstd = "*"
clap = { version = "*", features = ["derive"] }
anyhow = "*"
