[package]
name = "gxr"
version = "0.1.0"
edition = "2021"
publish = false

[dependencies]
encoding_rs = "*"
clap = { version = "*", features = ["derive"] }
tokio = { version = "*", features = ["process", "sync", "time", "rt-multi-thread", "macros"] }
indicatif = "*"
chrono = { version = "*", default-features = false, features = ["clock"] }
rust_xlsxwriter = "*"
lazy_static = "*"
