[package]
name = "ccthw_ash_allocator"
version = "0.1.0"
edition = "2021"
publish = false

[dependencies]
anyhow = "1"
ash = "0.37"
indoc = "2"
log = "0.4"
thiserror = "1"
