[package]
name = "instant"
version = "0.1.0"
edition = "2021"
publish = false

[dependencies]
lalrpop-util = { version = "=0.19.12", features = ["lexer"] }
