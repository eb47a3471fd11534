[package]
name = "kernelkit"
version = "0.1.5"
edition = "2021"
publish = false

[dependencies]
memmap2 = "0.9"
libc = "0.2"
libloading = "0.8"
thiserror = "2"
