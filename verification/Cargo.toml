[package]
name = "infini_jump"
version = "0.1.0"
edition = "2021"
publish = false

[dependencies]
bevy_utils = "0.12"
noise = "0.8"
proc-macro2 = "1"
quote = "1"
rand = "0.8"
syn = "2"
