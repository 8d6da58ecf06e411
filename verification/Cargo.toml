[package]
name = "top_matches"
version = "0.1.0"
edition = "2021"
publish = false

[dependencies]
strsim = "0.11"
structopt = "0.3"
threadpool = "1"
