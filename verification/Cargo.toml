[package]
name = "aviutl_text"
version = "0.1.0"
edition = "2021"
publish = false

[dev-dependencies]
lazy-regex = "3"
