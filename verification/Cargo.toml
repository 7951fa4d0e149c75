[package]
name = "malloc_buf"
version = "1.0.0"
edition = "2021"
publish = false

[dependencies]
libc = "0.2"
