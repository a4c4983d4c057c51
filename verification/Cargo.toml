[package]
name = "ringpipe"
version = "0.1.0"
edition = "2021"
publish = false

[dependencies]
futures-io = "0.3"
