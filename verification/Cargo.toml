[package]
name = "protolark"
version = "0.1.0"
edition = "2021"
publish = false

[dependencies]
anyhow = "1"
clap = { version = "4", features = ["derive"] }
prost = "*"
prost-reflect = { version = "*", features = ["serde", "text-format"] }
prost-types = "*"
protox = "*"
serde_json = "1"
starlark = "*"
tempfile = "3"
