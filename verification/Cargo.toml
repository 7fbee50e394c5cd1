[package]
name = "npm_launcher"
version = "0.1.0"
edition = "2021"
publish = false

[dependencies]
console = "0.15"
dialoguer = "0.11"
serde_json = "1"
