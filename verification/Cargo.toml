[package]
name = "rockcast"
version = "0.1.0"
edition = "2021"
publish = false

[dependencies]
eframe = { version = "=0.32.3", default-features = false, features = ["glow", "x11"] }
fdk-aac = "=0.8.0"
if-addrs = "=0.15.0"
log = "=0.4.35"
mdns-sd = "=0.21.7"
parking_lot = "=0.12.5"
reqwest = { version = "=0.12.28", default-features = false, features = ["blocking", "rustls-tls"] }
ropus = "=0.12.18"
rustfft = "=6.4.1"
rustls = { version = "=0.23.46", default-features = false, features = ["ring", "std", "tls12", "logging"] }
serde = { version = "=1.0.229", features = ["derive"] }
serde_json = "=1.0.154"
symphonia = { version = "=0.5.5", features = ["aac", "mp3", "isomp4"] }
symphonia-adapter-fdk-aac = "=0.1.3"
thiserror = "=2.0.21"
time = { version = "=0.3.55", features = ["formatting", "parsing", "macros"] }
uuid = { version = "=1.29.0", features = ["v4"] }
