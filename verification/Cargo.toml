[package]
name = "armor_decrypt"
version = "0.1.0"
edition = "2021"
publish = false

[dependencies]
z85 = "*"
