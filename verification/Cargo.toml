[package]
name = "dirbuf"
version = "0.1.0"
edition = "2021"
publish = false

[dependencies]
crossterm = "0.28"
ratatui = "0.29"
regex = "1"
syntect = { version = "5", default-features = false, features = ["default-fancy"] }
syntect-tui = "3"
tokio = { version = "1", features = ["macros", "rt-multi-thread", "sync", "time"] }
