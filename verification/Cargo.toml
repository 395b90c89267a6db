[package]
name = "svinst"
version = "0.1.0"
edition = "2021"
publish = false

[dependencies]
enquote = "=1.1.0"
structopt = "=0.3.26"
sv-parser = "=0.13.5"
sv-parser-error = "=0.13.5"
sv-parser-pp = "=0.13.5"
sv-parser-syntaxtree = "=0.13.5"
tempfile = "=3.27.0"
