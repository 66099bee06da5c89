[package]
name = "confbk"
version = "0.1.0"
edition = "2021"
publish = false

[dependencies]
fs_extra = "1"
structopt = "0.3"
