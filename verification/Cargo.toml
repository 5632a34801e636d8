[package]
name = "rulefront"
version = "0.1.0"
edition = "2021"

[dependencies]
base64 = "*"
indexmap = "*"
