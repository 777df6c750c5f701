[package]
name = "quac"
version = "0.1.0"
edition = "2021"
publish = false

[dependencies]
arc-swap = "1"
aya = "0.13"
bytes = "1"
clap = { version = "4", features = ["derive"] }
crossbeam-queue = "0.3"
fastrand = "2"
io-uring = "0.6"
libc = "0.2"
log = "0.4"
quinn = { version = "0.11", default-features = false, features = ["runtime-tokio", "rustls-ring"] }
rcgen = { version = "0.14", default-features = false, features = ["ring"] }
rustls = { version = "0.23", default-features = false, features = ["ring", "std"] }
smallvec = "1"
socket2 = { version = "0.5", features = ["all"] }
tokio = { version = "1", features = ["full"] }
