[package]
name = "hyprconf"
version = "0.1.0"
edition = "2021"
publish = false

[dependencies]
anyhow = "=1.0.104"
clap = { version = "=4.6.7", features = ["derive"] }
skim = "=0.20.5"
skim-tuikit = "=0.6.6"
