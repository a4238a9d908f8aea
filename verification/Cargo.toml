[package]
name = "rusty_tip"
version = "0.1.0"
edition = "2021"
publish = false

[dependencies]
byteorder = "=1.5.0"
crossbeam-channel = "0.5"
ndarray = "=0.16.1"
parking_lot = "=0.12.5"
schemars = "1"
serde = { version = "=1.0.229", features = ["derive"] }
serde_json = "=1.0.154"
textplots = "0.8"
thiserror = "=2.0.21"
