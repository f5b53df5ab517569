[package]
name = "kernel_core"
version = "0.1.0"
edition = "2021"
publish = false

[dependencies]
hashbrown = "0.13"
num = { version = "0.4", default-features = false }
lazy_static = "1.4"
log = "0.4"
libc = "0.2"
nix = "*"
