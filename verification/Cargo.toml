[package]
name = "papers"
version = "0.1.0"
edition = "2021"
publish = false

[dependencies]
time = "0.1"
sqlite3 = "*"
ssh2 = "*"
