[package]
name = "harness"
version = "0.1.0"
edition = "2021"
publish = false

[dependencies]
anyhow = "=1.0.104"
apriltag = "=0.4.0"
arrow-array = "=60.1.0"
arrow-ipc = "=60.1.0"
arrow-schema = "=60.1.0"
clap = { version = "=4.6.7", features = ["derive"] }
ctrlc = "=3.5.2"
image = { version = "=0.25.10", default-features = false }
jpeg-encoder = "=0.7.1"
libc = "=0.2.191"
mach2 = "=0.7.0"
nokhwa = { version = "=0.10.11", default-features = false, features = ["decoding"] }
rand = "=0.10.3"
serialport = { version = "=4.10.1", default-features = false }
