[package]
name = "stream_concat"
version = "0.1.0"
edition = "2021"
publish = false

[dependencies]
futures-core = "0.3"
