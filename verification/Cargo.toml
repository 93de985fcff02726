[package]
name = "bogoforge"
version = "0.1.0"
edition = "2021"
publish = false

[dependencies]
anyhow = "*"
chrono = "*"
crossterm = "*"
fern = "*"
log = "*"
orx-parallel = "*"
ratatui = "*"
serde = { version = "*", features = ["derive"] }
sysinfo = "*"
tokio = { version = "*", features = ["full"] }
tokio-util = "*"
toml = "*"
