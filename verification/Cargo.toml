[package]
name = "graft"
version = "0.1.0"
edition = "2021"
publish = false

[dependencies]
comrak = { version = "*", default-features = false }
csv = "1"
serde_json = "1"
serde_yaml = "0.8"
textwrap = "0.16"
