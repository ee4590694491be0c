[package]
name = "awgctl"
version = "0.1.0"
edition = "2021"
publish = false

[dependencies]
clap = { version = "=4.6.7", features = ["derive"] }
clap_complete = "=4.6.11"
network-interface = "=2.0.5"
qrcode = "=0.14.1"
serde = { version = "=1.0.229", features = ["derive"] }
sudo2 = "=0.2.1"
thiserror = "=2.0.21"
time = { version = "=0.3.55", features = ["serde"] }
toml = "=1.1.8"
wireguard-conf = { version = "=2.0.0", features = ["amneziawg", "serde"] }
