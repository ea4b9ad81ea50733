[package]
name = "elworthy"
version = "0.1.0"
edition = "2021"
publish = false

[dependencies]
anyhow = "1"
clap = { version = "4", features = ["derive"] }
cranelift = "0.113"
cranelift-codegen = "0.113"
cranelift-jit = "0.113"
cranelift-module = "0.113"
cranelift-native = "0.113"
libm = "0.2"
numpy = "0.22"
pyo3 = "0.22"
rand = "0.8"
rand_distr = "0.4"
rand_xoshiro = "0.6"
rayon = "1"
thiserror = "1"
tracing-subscriber = "0.3"
