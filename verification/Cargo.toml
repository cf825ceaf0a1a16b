[package]
name = "cds_enclave"
version = "0.1.0"
edition = "2021"
publish = false

[dependencies]
subtle = "2"
sha1 = "0.10"
sha2 = "0.10"
aes-gcm = "0.10"
rand_core = { version = "0.6", features = ["getrandom"] }
