[package]
name = "grezzi"
version = "0.1.0"
edition = "2021"
publish = false

[dependencies]
anstyle = "*"
clap = { version = "*", features = ["derive"] }
csv = "*"
image = { version = "*", default-features = false, features = ["png"] }
rand = "*"
rayon = "*"
tracing = "*"
tracing-subscriber = "*"
