[package]
name = "fex_rootfs_gen"
version = "0.1.0"
edition = "2021"
publish = false

[dependencies]
libsystemd = "*"
log = "*"
env_logger = "*"
