[package]
name = "meshcq"
version = "0.1.0"
edition = "2021"
publish = false

[dependencies]
clap = { version = "*", features = ["derive"] }
cpal = "*"
ogg = "*"
opus = "*"
regex = "*"
ringbuf = "*"
rustfft = "*"
time = { version = "*", features = ["formatting", "parsing"] }
