[package]
name = "comment-warden"
version = "0.1.0"
edition = "2021"
publish = false

[dependencies]
tree-sitter = "=0.27.1"
tree-sitter-rust = "=0.24.2"
tree-sitter-swift = "=0.7.4"
tree-sitter-nix = "=0.3.0"
tree-sitter-bash = "=0.25.1"
tree-sitter-hcl = "=1.1.0"
tree-sitter-python = "=0.25.0"
tree-sitter-typescript = "=0.23.2"
tree-sitter-javascript = "=0.25.0"
tree-sitter-go = "=0.25.0"
tree-sitter-c = "=0.24.2"
tree-sitter-cpp = "=0.23.4"
tree-sitter-yaml = "=0.7.2"
tree-sitter-toml-ng = "=0.7.0"
tree-sitter-css = "=0.25.0"
tree-sitter-ruby = "*"
tree-sitter-html = "*"
tree-sitter-embedded-template = "*"
tree-sitter-scss = "*"
globset = "=0.4.21"
ignore = "=0.4.34"
anyhow = "=1.0.104"
clap = { version = "=4.6.7", features = ["derive"] }
serde = { version = "=1.0.229", features = ["derive"] }
serde_json = "=1.0.154"
toml = "=1.1.8"
