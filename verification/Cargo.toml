[package]
name = "platemaker"
version = "0.1.0"
edition = "2021"
publish = false

[dependencies]
anyhow = "=1.0.104"
crossbeam-channel = "=0.5.17"
ctrlc = "=3.5.2"
notify-debouncer-full = { version = "=0.7.0", features = ["crossbeam-channel"] }
serde = { version = "=1.0.229", features = ["derive"] }
thiserror = "=2.0.21"
