[package]
name = "chess_rot_engine"
version = "0.1.0"
edition = "2021"
publish = false

[dependencies]
openai_api_rust = "*"
