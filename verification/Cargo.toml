[package]
name = "quickstore"
version = "0.1.0"
edition = "2021"
publish = false

[dependencies]
mla = "1"
brotli = "*"
structopt = "0.3"
