[package]
name = "cpmm"
version = "0.1.0"
edition = "2021"
publish = false

[dependencies]
anchor-lang = { version = "0.30.1", features = ["init-if-needed"] }
anchor-spl = "0.30.1"

[dev-dependencies]
primitive-types = { version = "0.12", default-features = false }
