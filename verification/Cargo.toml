[package]
name = "cddl_gen"
version = "0.1.0"
edition = "2021"
publish = false

[dependencies]
cddl-cat = "*"
heck = "*"
clap = "*"

[dev-dependencies]
minicbor = "*"
