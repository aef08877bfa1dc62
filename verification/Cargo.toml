[package]
name = "tscc"
version = "0.1.0"
edition = "2021"
publish = false

[dependencies]
clap = { version = "=4.6.7", features = ["derive"] }
inkwell = { version = "=0.5.0", features = ["llvm18-0-no-llvm-linking"] }
