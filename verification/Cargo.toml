[package]
name = "rtcmlib"
version = "0.1.0"
edition = "2021"
publish = false

[dependencies]
rtcm-rs = "*"
rinex = "*"
clap = "*"
