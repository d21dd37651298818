[package]
name = "epd_rs"
version = "0.1.0"
edition = "2021"
publish = false

[dependencies]
fixedbitset = "0.5"
display-interface = "0.5"
display-interface-spi = "0.5"
embedded-graphics = "0.8"
embedded-hal = "1.0"
