[package]
name = "fpe_ff1"
version = "0.1.0"
edition = "2021"
publish = false

[dependencies]
aes = "0.8"
cbc = "0.1"
cipher = "0.4"
libm = "0.2"

[dev-dependencies]
num-bigint = "0.4"
