[package]
name = "fdkg_tally"
version = "0.1.0"
edition = "2021"
publish = false

[dependencies]
babyjubjub-rs = "=0.0.11"
ff_ce = "=0.11.0"
num-bigint = "=0.4.8"
rand = "=0.8.8"
rayon = "=1.12.0"
indicatif = "=0.18.6"
