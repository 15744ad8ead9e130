[package]
name = "nmea_fast_packet"
version = "0.1.0"
edition = "2021"
publish = false

[dependencies]
fixed-queue = "*"
num-integer = "*"
err-derive = "*"
thiserror-no-std = "*"
pyo3 = { version = "0.20", features = ["extension-module", "abi3-py37"] }
