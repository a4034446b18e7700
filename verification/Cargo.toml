[package]
name = "nuke"
version = "0.1.0"
edition = "2021"
publish = false

[dependencies]
clap = { version = "4", features = ["derive"] }
libc = "0.2"
objc2 = "0.6"
objc2-app-kit = "0.3"
objc2-foundation = "0.3"
serde = { version = "1", features = ["derive"] }
toml = "0.8"
toml_edit = "0.22"
