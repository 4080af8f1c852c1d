[package]
name = "iorelay"
version = "0.1.0"
edition = "2021"
publish = false

[dependencies]
mio = { version = "*", features = ["os-poll", "os-ext"] }
termion = "*"
