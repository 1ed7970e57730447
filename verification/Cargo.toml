[package]
name = "f4na"
version = "0.1.0"
edition = "2021"
publish = false

[dependencies]
anyhow = "1"
thiserror = "*"
libc = "0.2"
usr_input = "*"
clap = { version = "4", features = ["derive"] }
