[package]
name = "synth_engine"
version = "0.1.0"
edition = "2021"
publish = false

[dependencies]
atomic_float = "*"
cpal = "0.15"
dyn-clone = "1"
rand = "0.8"
thiserror = "1"
