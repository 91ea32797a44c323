[package]
name = "rfm"
version = "0.1.0"
edition = "2021"
publish = false

[dependencies]
rand = "=0.10.3"
seahash = "=4.1.0"
flate2 = "=1.1.10"
trash = "=5.2.9"
crossterm = "=0.29.0"
fs_extra = "=1.3.0"
anyhow = "=1.0.104"
patricia_tree = "=0.10.2"
unix_mode = "=0.1.4"
shell-escape = "=0.1.5"
unicode-display-width = "=0.3.0"
image = { version = "0.25", default-features = false, features = ["png", "jpeg"] }

[dev-dependencies]
tempfile = "=3.27.0"
