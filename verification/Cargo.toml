[package]
name = "rendermd_core"
version = "0.1.0"
edition = "2021"
publish = false

[dependencies]
pulldown-cmark = "*"
comrak = "*"
percent-encoding = "*"
csv = "*"
chrono = "*"
serde = { version = "*", features = ["derive"] }
serde_json = "*"
toml = "*"
dirs = "*"
notify = "*"
tempfile = "*"
