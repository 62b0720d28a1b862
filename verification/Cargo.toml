[package]
name = "zellij_server"
version = "0.1.0"
edition = "2021"
publish = false

[dependencies]
anyhow = "*"
async-trait = "*"
close_fds = "*"
kasuari = "*"
libc = "*"
log = "*"
nix = { version = "*", features = ["term", "process", "signal", "fs", "ioctl"] }
once_cell = "*"
signal-hook = "*"
sysinfo = "*"
tempfile = "*"
tokio = { version = "*", features = ["rt-multi-thread", "net", "io-util"] }
wasmi = "*"
