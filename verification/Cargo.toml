[package]
name = "streamkeys"
version = "0.1.0"
edition = "2021"
publish = false

[dependencies]
async-trait = "0.1"
bytes = "1"
chrono = "0.4"
fixedbitset = "0.4"
itertools = "0.10"
smallbitset = "*"
static_assertions = "1"
twox-hash = "1"
