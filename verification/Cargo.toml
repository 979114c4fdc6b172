[package]
name = "textgen"
version = "0.1.0"
edition = "2021"
publish = false

[dependencies]
serde_json = "=1.0.151"
hf-hub = "=0.3.2"
openai_api_rust = "=0.1.9"
