[package]
name = "footprint"
version = "0.1.0"
edition = "2021"
publish = false

[dependencies]
libm = "0.2"
bytemuck = "1"
serde_json = "1"
chrono = "0.4"
clap = "2"
log = "0.4"
simple_logger = "*"

[dev-dependencies]
xml-rs = "*"
