[package]
name = "nordstone"
version = "0.1.0"
edition = "2021"
publish = false

[dependencies]
age = "0.9"
home = "*"
thiserror = "1"

[dev-dependencies]
bincode = "1"
