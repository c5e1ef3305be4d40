[package]
name = "trr"
version = "0.1.0"
edition = "2021"
publish = false

[dependencies]
chrono = "*"
ulid = "*"
dirs = "*"
serde = { version = "*", features = ["derive"] }
toml = "*"
clap = { version = "*", features = ["derive"] }
skim = "*"
