[package]
name = "ir_lowering"
version = "0.1.0"
edition = "2021"
publish = false

[dependencies]
anyhow = "=1.0.104"
cranelift = "=0.116.1"
cranelift-module = "=0.116.1"
cranelift-native = "=0.116.1"
cranelift-object = "=0.116.1"

[dev-dependencies]
cranelift-interpreter = "=0.116.1"
