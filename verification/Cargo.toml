[package]
name = "loader"
version = "0.1.0"
edition = "2021"
publish = false

[dependencies]
aes-gcm-siv = "*"
crc = "*"
getrandom = "*"
