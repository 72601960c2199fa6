[package]
name = "gpu_waiter"
version = "0.1.0"
edition = "2021"
publish = false

[dependencies]
anyhow = "=1.0.104"
chrono = "=0.4.45"
clap = { version = "=4.6.7", features = ["derive"] }
crossbeam-channel = "=0.5.17"
ctrlc = "=3.5.2"
cudarc = { version = "=0.19.10", default-features = false, features = ["std", "driver", "dynamic-loading", "cuda-12000"] }
either = "=1.18.0"
env_logger = "=0.11.11"
fs4 = "=1.1.0"
indicatif = "=0.18.6"
indicatif-log-bridge = "=0.2.3"
log = "=0.4.34"
mimalloc = "=0.1.52"
nvml-wrapper = "=0.13.0"
once_cell = "=1.21.4"
parking_lot = "=0.12.5"
