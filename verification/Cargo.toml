[package]
name = "proxmox-yew-comp"
version = "0.1.0"
edition = "2021"
publish = false

[dependencies]
percent-encoding = "=2.3.2"
url = "=2.5.8"
slab = "=0.4.12"
indexmap = "=2.14.2"
regex = "=1.13.1"
serde = { version = "=1.0.229", features = ["derive"] }
serde_json = "=1.0.154"
pulldown-cmark = { version = "=0.13.6", default-features = false, features = ["html"] }
