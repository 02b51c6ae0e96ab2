[package]
name = "msm"
version = "0.1.0"
edition = "2021"
publish = false

[dependencies]
arrayfire = "=3.8.0"
num = "=0.4.3"
num-traits = "=0.2.19"
rand = "=0.8.8"
rand_distr = "=0.4.3"
serde = { version = "=1.0.229", features = ["derive"] }
serde_derive = "=1.0.229"
anyhow = "=1.0.104"
log = "=0.4.35"
indicatif = "=0.17.11"
ndarray = "=0.15.6"
ndarray-npy = { version = "=0.8.1", default-features = false, features = ["npz", "num-complex-0_4"] }
conv = "=0.3.3"

[dev-dependencies]
approx = "=0.5.1"
