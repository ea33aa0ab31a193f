[package]
name = "sn_routing"
version = "0.1.0"
edition = "2021"
publish = false

[dependencies]
sodiumoxide = "=0.2.7"
lru_time_cache = "=0.11.11"
rand = "=0.10.3"
