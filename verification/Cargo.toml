[package]
name = "ashot"
version = "0.1.0"
edition = "2021"
publish = false

[dependencies]
anyhow = "=1.0.104"
ashpd = { version = "=0.10.3", default-features = false, features = ["async-std"] }
chrono = "=0.4.45"
clap = { version = "=4.6.7", features = ["derive"] }
cosmic-text = "=0.12.1"
dirs = "=5.0.1"
futures = "=0.3.34"
hound = "=3.5.1"
image = { version = "=0.25.10", default-features = false }
ksni = { version = "=0.3.7", features = ["blocking"] }
libc = "=0.2.191"
serde = { version = "=1.0.229", features = ["derive"] }
serde_json = "=1.0.154"
smallvec = "=1.16.4"
thiserror = "=2.0.21"
tiny-skia = "=0.11.4"
wayland-client = "=0.31.15"
wayland-protocols = { version = "=0.32.13", features = ["client", "unstable"] }
whisper-rs = "=0.12.0"
wl-clipboard-rs = "=0.9.5"
