[package]
name = "move_hover"
version = "0.1.0"
edition = "2021"
publish = false

[dependencies]
codespan = "0.11"
line-index = "0.1"
log = "0.4"
lsp-server = "0.5"
lsp-types = "0.90"
serde_json = "1"
