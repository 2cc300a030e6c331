[package]
name = "shmem-queue"
version = "0.1.0"
edition = "2021"
publish = false

[dependencies]
cstr_core = "0.2"
libc = "0.2"
log = "0.4"
