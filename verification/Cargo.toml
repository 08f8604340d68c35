[package]
name = "pi_slab"
version = "0.1.0"
edition = "2021"
publish = false

[dependencies]
pi_buckets = "*"
pi_vec_remain = "*"

[dev-dependencies]
rand = "0.8"
pcg_rand = "*"
