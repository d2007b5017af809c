[package]
name = "sensor_bridge"
version = "0.1.0"
edition = "2021"
publish = false

[dependencies]
chrono = "0.4"
env_logger = "0.10"
log = "0.4"
reqwest = { version = "0.12", default-features = false, features = ["blocking"] }
serialport = { version = "4", default-features = false }
thiserror = "1"
