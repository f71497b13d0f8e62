[package]
name = "timestretch"
version = "0.1.0"
edition = "2021"
publish = false

[dependencies]
hound = "*"
thiserror = "*"
