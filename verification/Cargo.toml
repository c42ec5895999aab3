[package]
name = "hostdash"
version = "0.1.0"
edition = "2021"
publish = false

[dependencies]
anyhow = "1"
crossterm = "0.28"
ratatui = "0.29"
sysinfo = "0.33"
tokio = { version = "1", features = ["macros", "rt-multi-thread"] }
