[package]
name = "landstrip"
version = "0.1.0"
edition = "2021"
publish = false

[dependencies]
anyhow = "1"
dirs = "6"
landlock = "0.4"
libc = "0.2"
log = "0.4"
nix = { version = "0.30", features = ["fs", "ioctl", "poll", "process", "signal", "socket", "uio", "user"] }
rayon = "1"
serde = { version = "1", features = ["derive"] }
serde_json = "1"
strum = { version = "0.27", features = ["derive"] }
