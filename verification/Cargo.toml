[package]
name = "rcgos"
version = "0.1.0"
edition = "2021"
publish = false

[dependencies]
lazy_static = "*"
log = "0.4"
riscv = "*"
sbi-rt = "*"
