[package]
name = "leafbuild_front"
version = "0.1.0"
edition = "2021"
publish = false

[dependencies]
proc-macro2 = "1"
serde = { version = "1", features = ["derive"] }
ron = "*"
ungrammar = "*"
