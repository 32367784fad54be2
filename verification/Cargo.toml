[package]
name = "file_navigator"
version = "0.1.0"
edition = "2021"
publish = false

[dependencies]
sysinfo = "*"
open = "*"

[dev-dependencies]
serde_json = "*"
