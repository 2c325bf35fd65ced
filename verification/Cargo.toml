[package]
name = "ds_tuner"
version = "0.1.0"
edition = "2021"
publish = false

[dependencies]
anyhow = "*"
clap = { version = "*", features = ["derive"] }
inotify = "*"
libbpf-rs = "*"
libc = "*"
log = "*"
serde = { version = "*", features = ["derive"] }
simplelog = "*"
systemd-journal-logger = "*"
toml = "*"
udev = { version = "*", features = ["mio"] }
