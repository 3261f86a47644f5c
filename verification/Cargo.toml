[package]
name = "regperms"
version = "0.1.0"
edition = "2021"
publish = false

[dependencies]
windows = { version = "0.48", features = ["Win32_Foundation", "Win32_Security", "Win32_Security_Authorization"] }
windows-acl = "0.3"
