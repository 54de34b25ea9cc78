[package]
name = "tls_record"
version = "0.1.0"
edition = "2021"
publish = false

[dependencies]
sha2 = "*"
heapless = "*"
rand_core = "*"
