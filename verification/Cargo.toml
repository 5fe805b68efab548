[package]
name = "ayml_lsp"
version = "0.1.0"
edition = "2021"
publish = false

[dependencies]
serde_json = "1"
jsonschema = "*"
lsp-server = "*"
lsp-types = "0.97"
ureq = "3"
