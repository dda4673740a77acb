[package]
name = "bench_vtables"
version = "0.1.0"
edition = "2021"
publish = false

[dependencies]
bitintr = "*"
succinct = "0.5.2"
