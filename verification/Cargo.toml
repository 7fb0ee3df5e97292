[package]
name = "minimalos"
version = "0.1.0"
edition = "2021"
publish = false

[dependencies]
limine = "=0.5.0"
spin = "=0.12.3"
pc-keyboard = "=0.8.0"
