[package]
name = "lvgl_font_bridge"
version = "0.1.0"
edition = "2021"
publish = false

[dependencies]
embedded-graphics = "=0.8.2"
proc-macro2 = "=1.0.107"
quote = "=1.0.47"
syn = "=2.0.119"
proc-macro-crate = "=3.5.0"

[dev-dependencies]
regex = "=1.13.1"
