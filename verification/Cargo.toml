[package]
name = "video_transcoder"
version = "0.1.0"
edition = "2021"
publish = false

[dependencies]
chrono = "*"
notify = "*"
num_cpus = "*"
rayon = "*"
walkdir = "*"
