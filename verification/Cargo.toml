[package]
name = "nbd_serve"
version = "0.1.0"
edition = "2021"
publish = false

[dependencies]
bufstream = "=0.1.4"
structopt = "=0.3.26"
winapi = { version = "=0.3.9", features = ["ioapiset", "winioctl", "minwindef"] }

[dev-dependencies]
nbd = "=0.3.1"
