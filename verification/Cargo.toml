[package]
name = "rusty_2048"
version = "0.1.0"
edition = "2021"
publish = false

[dependencies]
rand = "0.9"
ratatui = "*"
crossterm = "*"
savefile = { version = "*", features = ["derive"] }
env_logger = "*"
log = "0.4"
elsa = "*"
