[package]
name = "pore_patch"
version = "0.1.0"
edition = "2021"
publish = false

[dependencies]
fitrs = "*"
tiff = "*"
scoped_threadpool = "*"
