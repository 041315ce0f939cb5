[package]
name = "graveyard"
version = "0.1.2"
edition = "2021"
publish = false

[dependencies]
petgraph = "*"
humantime = "*"
tree-sitter = "*"
tree-sitter-javascript = "*"
tree-sitter-typescript = "*"
tree-sitter-python = "*"
tree-sitter-go = "*"
tree-sitter-rust = "*"
anyhow = "*"
chrono = "*"
clap = { version = "4", features = ["derive"] }
clap_complete = "4"
dirs = "*"
git2 = { version = "*", default-features = false }
ignore = "*"
indicatif = "*"
once_cell = "*"
owo-colors = "*"
path-slash = "*"
rayon = "*"
serde = { version = "1", features = ["derive"] }
serde_json = "1"
sha2 = "*"
sled = "*"
toml = "*"
tracing = "*"
tracing-subscriber = { version = "*", features = ["env-filter"] }
