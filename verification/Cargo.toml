[package]
name = "lazy_atomic"
version = "0.1.0"
edition = "2021"
publish = false

[dependencies]
parking_lot = "*"
flume = "*"
once_cell = "*"
libc = "*"
