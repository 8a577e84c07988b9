[package]
name = "mdbook_wavedrom"
version = "0.1.0"
edition = "2021"
publish = false

[dependencies]
pulldown-cmark = "0.8"
mdbook = { version = "0.4", default-features = false }
clap = "2"
env_logger = "0.10"
log = "0.4"
serde_json = "1"
toml_edit = "0.14"
