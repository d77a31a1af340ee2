[package]
name = "dsh_client"
version = "0.2.0"
edition = "2021"
publish = false

[dependencies]
dirs = "*"
tao = "*"
