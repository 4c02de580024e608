[package]
name = "cabin"
version = "0.1.0"
edition = "2021"
publish = false

[dependencies]
unindent = "=0.2.4"
colored = "=3.1.1"
clap = { version = "=4.6.7", features = ["derive"] }
semver = "=1.0.28"
pathdiff = "=0.2.3"
toml_edit = "*"
