[package]
name = "minidt"
version = "0.1.0"
edition = "2021"
publish = false

[dependencies]
anstyle = "*"
clap = { version = "*", features = ["derive"] }
minijinja = { version = "*", features = ["loader"] }
serde = { version = "*", features = ["derive"] }
