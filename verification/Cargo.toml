[package]
name = "exlap_hook"
version = "0.1.0"
edition = "2021"
publish = false

[dependencies]
exlap = "*"
getrandom = "0.2"
serde_json = "1"
