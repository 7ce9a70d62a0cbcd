[package]
name = "dds_crypto_core"
version = "0.1.0"
edition = "2021"
publish = false
