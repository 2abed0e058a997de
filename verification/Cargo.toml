[package]
name = "gst_completion"
version = "0.1.0"
edition = "2021"
publish = false

[dependencies]
gstreamer = "0.19"
lazy_static = "1.4"
shell_completion = "*"

[dev-dependencies]
nom = "7"
