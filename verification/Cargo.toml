[package]
name = "rkyv"
version = "0.1.0"
edition = "2021"
publish = false

[dependencies]
arrayvec = "=0.7.8"
indexmap = "=2.14.2"
proc-macro2 = "=1.0.107"
quote = "=1.0.47"
rancor = "=0.1.3"
rend = "=0.5.4"
smallvec = "=1.16.4"
syn = { version = "=2.0.119", features = ["full", "extra-traits"] }
