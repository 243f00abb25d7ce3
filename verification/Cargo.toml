[package]
name = "desktop_commands"
version = "0.1.0"
edition = "2021"
publish = false

[dependencies]
serde = { version = "1", features = ["derive"] }
sysinfo = "0.30"
