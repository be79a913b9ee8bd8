[package]
name = "asyncnal"
version = "0.1.0"
edition = "2021"
publish = false

[dependencies]
lfqueue = "*"
crossbeam-utils = "*"
pin-project = "*"
arc-swap = "*"
portable-atomic = "*"
