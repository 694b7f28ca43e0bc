[package]
name = "kernel"
version = "0.1.0"
edition = "2021"
publish = false

[dependencies]
heapless = "=0.8.0"
x86_64 = { version = "=0.14.13", default-features = false, features = ["instructions"] }
bootloader_api = "=0.11.17"
spin = "=0.9.9"
lazy_static = "=1.5.1"
dotenvy = "=0.15.7"
