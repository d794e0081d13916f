[package]
name = "midilatch"
version = "0.1.0"
edition = "2021"
publish = false

[dependencies]
lv2 = "=0.6.0"
wmidi = "=3.1.0"
