[package]
name = "resonant_engine"
version = "0.1.0"
edition = "2021"
publish = false

[dependencies]
cpal = "0.15"
druid = "0.8"
lazy_static = "1.4"
parking_lot = "0.12"
rodio = "0.17"
