[package]
name = "llvm_stackmaps"
version = "0.1.0"
edition = "2021"
publish = false

[dependencies]
goblin = "*"
serde = { version = "*", features = ["derive"] }
