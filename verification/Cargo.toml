[package]
name = "resampler"
version = "0.1.0"
edition = "2021"
publish = false

[dependencies]
dasp = { version = "=0.11.0", features = ["signal", "interpolate", "interpolate-sinc", "ring_buffer"] }
ringbuf = "=0.2.8"
