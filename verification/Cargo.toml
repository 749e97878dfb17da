[package]
name = "cargo_asm"
version = "0.1.0"
edition = "2021"
publish = false

[dependencies]
atty = "*"
platforms = "*"
rustc-demangle = "*"
serde = "*"
serde_derive = "*"
serde_json = "*"
structopt = "*"
termcolor = "*"
toml = "*"
