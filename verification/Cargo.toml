[package]
name = "my_cava"
version = "0.1.0"
edition = "2021"
publish = false

[dependencies]
anyhow = "=1.0.104"
apodize = "=1.0.0"
cpal = { version = "=0.18.2", features = ["pipewire"] }
crossterm = "=0.29.0"
log = "=0.4.35"
ringbuf = "=0.4.8"
rustfft = "=6.4.1"
simplelog = "=0.12.2"
