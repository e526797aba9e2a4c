[package]
name = "stratus"
version = "0.1.0"
edition = "2021"
publish = false

[dependencies]
bitvec = "=1.1.1"
bytemuck = { version = "=1.25.2", features = ["derive"] }
camino = "=1.2.6"
cosmic-text = "=0.14.2"
crc32fast = "=1.5.4"
flate2 = "=1.1.10"
glam = { version = "=0.29.3", features = ["bytemuck"] }
image = { version = "=0.25.10", default-features = false, features = ["png"] }
indexmap = "=2.14.2"
log = "=0.4.35"
lyon = "=1.0.19"
paste = "=1.0.15"
rawzip = "=0.3.1"
skyline = "=0.6.0"
stats_alloc = "=0.1.10"
