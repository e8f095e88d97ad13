[package]
name = "nix_eval"
version = "0.1.0"
edition = "2021"
publish = false

[dependencies]
derive_more = "0.99"
ordered-float = "2"
thiserror = "1"
