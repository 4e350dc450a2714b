[package]
name = "welly_rs"
version = "0.1.0"
edition = "2021"
publish = false

[dependencies]
encoding_rs = "0.8"
unicode-width = "*"
egui = { version = "0.29", default-features = false, features = ["default_fonts"] }
russh = { version = "*", default-features = false, features = ["ring", "rsa"] }
tokio = { version = "1", features = ["rt-multi-thread", "sync", "time", "macros"] }
crossbeam-channel = "0.5"
dirs = "*"
log = "0.4"
env_logger = { version = "*", default-features = false }
fontdb = "*"
ab_glyph = "0.2"
bytes = "1"
winreg = "*"
