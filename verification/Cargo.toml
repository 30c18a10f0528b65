[package]
name = "teensy_tft_rs"
version = "0.1.0"
edition = "2021"
publish = false

[dependencies]
embedded-graphics = "0.8"
embedded-hal = "0.2"
cortex-m = "0.7"
futures = { version = "0.3", default-features = false }
