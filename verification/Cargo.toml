[package]
name = "serverare"
version = "0.1.0"
edition = "2021"
publish = false

[dependencies]
serde = { version = "1", features = ["derive"] }
serde_json = "1"
ratatui = "0.29"
crossterm = "0.28"
ureq = { version = "3", features = ["json"] }
ping = "*"
parking_lot = "0.12"
libc = "0.2"
