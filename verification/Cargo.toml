[package]
name = "adaptive_brightness"
version = "0.1.0"
edition = "2021"
publish = false

[dependencies]
anyhow = "=1.0.104"
clap = { version = "=4.6.7", features = ["derive"] }
ddc = "=0.2.2"
ddc-i2c = { version = "=0.2.2", features = ["with-linux"] }
edid = "=0.3.0"
embedded-hal = "=1.0.0"
ftdi = "=0.1.3"
ftdi-embedded-hal = "=0.24.0"
ron = "=0.12.2"
serde = { version = "=1.0.229", features = ["derive"] }
