[package]
name = "running_text"
version = "0.1.0"
edition = "2021"
publish = false

[dependencies]
anyhow = "=1.0.104"
chrono = { version = "=0.4.45", default-features = false, features = ["std"] }
clap = { version = "=4.6.7", features = ["cargo"] }
humantime = "=2.4.0"
mpd = "0.1"
