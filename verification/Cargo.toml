[package]
name = "pitch_detector"
version = "0.1.0"
edition = "2021"
publish = false

[dependencies]
portaudio = "0.7"
