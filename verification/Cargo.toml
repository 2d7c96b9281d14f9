[package]
name = "rsiv"
version = "0.1.0"
edition = "2021"
publish = false

[dependencies]
infer = "=0.22.0"
image = "=0.25.10"
resvg = "=0.48.1"
sysinfo = "=0.39.6"
crossbeam-channel = "=0.5.17"
num_cpus = "=1.17.0"
walkdir = "=2.5.0"
