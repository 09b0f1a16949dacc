[package]
name = "bonsai_lint"
version = "0.1.0"
edition = "2021"
publish = false

[dependencies]
tree-sitter = "*"
tree-sitter-go = "*"
tree-sitter-java = "*"
tree-sitter-php = "*"
tree-sitter-python = "*"
tree-sitter-typescript = "*"
tree-sitter-html = "*"
globset = "*"
ignore = "*"
serde = { version = "1", features = ["derive"] }
serde_json = "1"
toml = "*"
clap = { version = "4", features = ["derive"] }

[dev-dependencies]
tempfile = "3"
