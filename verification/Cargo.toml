[package]
name = "natrium"
version = "0.1.0"
edition = "2021"
publish = false

[dependencies]
indexmap = "*"
bit-set = "*"
smol_str = "*"
logos = "*"
unescape = "*"
clap = { version = "*", features = ["derive"] }
rustyline = "*"
crossterm = "*"
shell-words = "*"
bimap = "*"
unicode-width = "*"
line-span = "*"
