[package]
name = "drs_rt"
version = "0.1.0"
edition = "2021"
publish = false

[dependencies]
anyhow = "1"
chrono = "0.4"
clap = { version = "4", features = ["derive"] }
core_affinity = "0.8"
fern = "*"
log = "0.4"
socket2 = "0.5"
