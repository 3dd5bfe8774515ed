[package]
name = "jsonschema_llm"
version = "0.1.0"
edition = "2021"
publish = false

[dependencies]
serde_json = "*"
