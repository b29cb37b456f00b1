[package]
name = "switchhosts"
version = "0.1.0"
edition = "2021"
publish = false

[dependencies]
serde = { version = "1", features = ["derive"] }
serde_json = "1"
windows-sys = { version = "0.59", default-features = false, features = ["Win32_System_SystemInformation"] }
