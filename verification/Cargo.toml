[package]
name = "uring_echo"
version = "0.1.0"
edition = "2021"
publish = false

[dependencies]
slab = "*"
io-uring = "*"
nix = { version = "*", features = ["fs"] }
mio = { version = "*", features = ["os-poll", "net"] }
tokio = { version = "*", features = ["macros", "rt-multi-thread", "net", "io-util"] }
tokio-uring = "*"
