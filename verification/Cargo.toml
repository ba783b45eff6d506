[package]
name = "neurochain"
version = "0.1.0"
edition = "2021"
publish = false

[dependencies]
anyhow = "=1.0.104"
tokenizers = "=0.22.2"
tract-onnx = "=0.21.18"
