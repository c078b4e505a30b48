[package]
name = "ff_transcode_helper"
version = "0.1.0"
edition = "2021"
publish = false

[dependencies]
ffmpeg-next = "7"
indicatif = "0.17"
thiserror = "2"
anyhow = "1"
