[package]
name = "lambdaos"
version = "0.1.0"
edition = "2021"
publish = false

[dependencies]
x86_64 = "=0.14.13"
x86 = "=0.52.0"
multiboot2 = "=0.28.0"
