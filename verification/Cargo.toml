[package]
name = "nix_lsp"
version = "0.1.0"
edition = "2021"
publish = false

[dependencies]
anyhow = "1"
log = "0.4"
env_logger = "*"
lsp-types = "*"
rnix = "*"
rowan = "*"
ropey = "1"
tree-sitter = "*"
tree-sitter-nix = "*"
nix-bindings-expr = "*"
nix-bindings-flake = "*"
nix-bindings-store = "*"
nix-bindings-util = "*"
