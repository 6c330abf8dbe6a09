[package]
name = "dead_poets"
version = "0.3.0"
edition = "2021"
publish = false

[dependencies]
aho-corasick = "1"
anyhow = "1"
clap = { version = "4", features = ["derive"] }
colored = "*"
env_logger = "*"
globset = "0.4"
ignore = "0.4"
log = "0.4"
polib = "*"
rayon = "1"
regex = "1"
serde = { version = "1", features = ["derive"] }
serde_json = "1"
toml = "*"
tree-sitter = "*"
tree-sitter-javascript = "*"
tree-sitter-php = "*"
tree-sitter-typescript = "*"
