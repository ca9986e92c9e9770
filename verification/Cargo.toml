[package]
name = "ublk_vram"
version = "0.1.0"
edition = "2021"
publish = false

[dependencies]
anyhow = "=1.0.104"
clap = { version = "=4.6.7", features = ["derive"] }
ctrlc = "=3.5.2"
env_logger = "=0.11.11"
futures = "=0.3.34"
libc = "=0.2.190"
libublk = "=0.3.5"
log = "=0.4.34"
nix = { version = "=0.31.3", features = ["mman"] }
num_cpus = "=1.17.0"
opencl3 = "=0.12.3"
serde_json = "=1.0.151"
smol = "=2.0.2"
