[package]
name = "uppercut"
version = "0.4.0"
edition = "2021"
publish = false

[dependencies]
bytes = "1"
parsed = "*"
mio = { version = "0.8", features = ["os-poll", "net"] }
crossbeam-channel = "0.5"
core_affinity = "0.8"
get_if_addrs = "0.5"
