[package]
name = "help_sessions"
version = "0.1.0"
edition = "2021"
publish = false

[dependencies]
clap = { version = "4", features = ["derive"] }
fastrand = "2"
itertools = "0.13"
rayon = "1"
smallvec = "1"
