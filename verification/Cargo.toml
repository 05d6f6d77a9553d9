[package]
name = "fold_constants"
version = "0.1.0"
edition = "2021"
publish = false

[dependencies]
num-bigint = "0.4"
oxc_ast = "0.28"
oxc_span = "0.28"
oxc_syntax = "0.28"
oxc_traverse = "0.28"
