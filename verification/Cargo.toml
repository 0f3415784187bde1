[package]
name = "remote_fetch"
version = "0.1.0"
edition = "2021"
publish = false

[dependencies]
clap = { version = "*", features = ["derive"] }
color-eyre = "*"
crossterm = "*"
futures = "*"
humansize = "*"
ratatui = "*"
rpassword = "*"
ssh2 = "*"
tokio = { version = "*", features = ["macros", "rt-multi-thread", "sync", "time"] }
