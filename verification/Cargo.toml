[package]
name = "text_analysis"
version = "0.1.0"
edition = "2021"

[dependencies]
rust-stemmers = "*"
