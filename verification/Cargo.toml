[package]
name = "asterism"
version = "0.1.0"
edition = "2021"
publish = false

[dependencies]
textum = "=0.2.0"
edtui = "=0.11.7"
ratatui = "=0.30.2"
serde = { version = "=1.0.229", features = ["derive"] }
serde_json = "=1.0.154"
clap = { version = "=4.6.7", features = ["derive"] }
facet = "=0.46.5"
facet-toml = "=0.46.1"
tree-sitter = "=0.27.1"
tree-sitter-md = "=0.5.4"

[dev-dependencies]
tempfile = "=3.27.0"
