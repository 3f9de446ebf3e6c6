[package]
name = "ru_shell"
version = "0.1.0"
edition = "2021"
publish = false

[dependencies]
chrono = "*"
colored = "*"
dirs-next = "*"
libc = "*"
regex = "*"
users = "*"
