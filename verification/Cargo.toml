[package]
name = "prac"
version = "0.1.0"
edition = "2021"
publish = false

[dependencies]
anyhow = "1"
chrono = { version = "0.4", features = ["serde"] }
clap = { version = "4", features = ["derive", "env"] }
dialoguer = { version = "*", features = ["fuzzy-select"] }
dirs = "*"
itertools = "*"
serde = { version = "1", features = ["derive"] }
serde_json = "1"
serde_with = { version = "*", features = ["chrono_0_4"] }
termion = "*"
