[package]
name = "dfsdm-viz"
version = "0.1.0"
edition = "2021"
publish = false

[dependencies]
chrono = { version = "0.4", default-features = false, features = ["clock"] }
clap = { version = "4", features = ["derive"] }
crossbeam-channel = "0.5"
egui = "0.27"
egui_plot = "0.27"
env_logger = { version = "0.11", default-features = false }
hound = "3.5"
log = "0.4"
rustfft = "6"
serialport = { version = "4", default-features = false }
