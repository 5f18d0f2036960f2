[package]
name = "tamepad"
version = "0.1.0"
edition = "2021"
publish = false

[dependencies]
anyhow = "*"
crossbeam-channel = "*"
fs_extra = "*"
indexmap = { version = "*", features = ["serde"] }
input-linux = "*"
json5 = "*"
lazy_static = "*"
libc = "*"
schemars = "*"
sdl2 = "*"
serde = { version = "*", features = ["derive"] }
serde_json = "*"
signal-hook = "*"
strum = { version = "*", features = ["derive"] }
