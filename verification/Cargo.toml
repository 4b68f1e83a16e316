[package]
name = "py_marshal"
version = "0.1.0"
edition = "2021"
publish = false

[dependencies]
bitflags = "1"
num-bigint = "0.4"
num-complex = "0.4"
num-traits = "0.2"
thiserror = "1"
