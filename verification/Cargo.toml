[package]
name = "hstr_rs"
version = "0.1.0"
edition = "2021"
publish = false

[dependencies]
regex = "*"
dirs = "*"
gethostname = "*"
libc = "*"
setenv = "*"
