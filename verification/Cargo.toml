[package]
name = "mark_tui"
version = "0.1.0"
edition = "2021"
publish = false

[dependencies]
unicode-width = "0.2"
ratatui = "0.29"
tokio = { version = "1", features = ["rt-multi-thread", "sync", "time"] }
