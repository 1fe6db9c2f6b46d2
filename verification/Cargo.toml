[package]
name = "rtiow"
version = "0.1.0"
edition = "2021"
publish = false

[dependencies]
auto_ops = "=0.3.0"
macroquad = { version = "=0.3.26", default-features = false }
num-traits = "=0.2.19"
num_cpus = "=1.17.0"
rand = "=0.8.8"
