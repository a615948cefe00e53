[package]
name = "lox"
version = "0.1.0"
edition = "2021"
publish = false

[dependencies]
byteorder = "1"
hashbrown = "*"
logos = "*"
thiserror = "*"
anyhow = "*"
serde_json = "*"
