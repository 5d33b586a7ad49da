[package]
name = "gitmedit"
version = "0.1.0"
edition = "2021"
publish = false

[dependencies]
anyhow = "1"
arboard = { version = "*", default-features = false }
clap = { version = "4", features = ["derive"] }
crossterm = "*"
ratatui = "*"
ratatui-textarea = "*"
