[package]
name = "ilo_lawa"
version = "0.4.0"
edition = "2021"
publish = false

[dependencies]
spin = "0.9"
lazy_static = { version = "1.4", features = ["spin_no_std"] }
x86_64 = "0.14"
virtio-drivers = "0.7"
uefi = "0.28"
