[package]
name = "unsafe_to_safe"
version = "0.1.0"
edition = "2021"
publish = false

[dependencies]
itertools = "=0.15.0"
ra_ap_syntax = "=0.0.300"
