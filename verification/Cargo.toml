[package]
name = "kinect_firmware_utils"
version = "0.1.0"
edition = "2021"
publish = false

[dependencies]
rusb = "*"
