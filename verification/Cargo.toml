[package]
name = "zurished"
version = "0.1.0"
edition = "2021"
publish = false

[dependencies]
image = { version = "0.25", default-features = false, features = ["jpeg", "png", "gif", "bmp"] }
iron = "0.6"
router = "0.6"
rustc-serialize = "0.3"
clap = "2"
