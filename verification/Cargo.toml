[package]
name = "retouch"
version = "0.6.9"
edition = "2021"
publish = false

[dependencies]
base64 = "=0.22.1"
clap = { version = "=4.6.7", features = ["derive"] }
image = "=0.25.10"
inpaint = "=0.1.7"
memmap2 = "=0.9.12"
native-tls = "=0.2.18"
ndarray = "=0.16.1"
palette = "=0.7.7"
rayon = "=1.12.0"
serde = { version = "=1.0.229", features = ["derive"] }
serde_json = "=1.0.154"
toml = "=0.8.23"
ureq = { version = "=2.12.1", features = ["json", "native-tls"] }
zentone = "=0.1.0"
