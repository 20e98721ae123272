[package]
name = "quantum_sim"
version = "0.1.0"
edition = "2021"
publish = false

[dependencies]
nalgebra = "0.33"
num-complex = "0.4"
rand = "0.8"
rayon = "1"
neon = "1"
