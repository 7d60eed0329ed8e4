[package]
name = "kernel_loader"
version = "0.1.0"
edition = "2021"
publish = false

[dependencies]
xmas-elf = "=0.10.0"
zero = "=0.1.3"
uefi = { version = "=0.28.0", features = ["alloc"] }
uefi-services = { version = "=0.25.0", default-features = false }
log = "=0.4.34"
cfg-if = "=1.0.5"
