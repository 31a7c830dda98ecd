[package]
name = "perfo"
version = "0.1.0"
edition = "2021"
publish = false

[dependencies]
serde = { version = "1", features = ["derive"] }
sysinfo = "*"
libc = "0.2"
ratatui = "*"
