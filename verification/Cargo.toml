[package]
name = "sval_protobuf"
version = "0.1.0"
edition = "2021"
publish = false

[dependencies]
sval = "*"
bytes = "*"
