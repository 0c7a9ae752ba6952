[package]
name = "audio_io"
version = "0.1.0"
edition = "2021"
publish = false

[dependencies]
audiopus = "0.3.0-rc.0"
cpal = "0.16"
env_logger = "0.11"
log = "0.4"
pulp = "*"
ringbuf = "0.4"
rubato = "0.16"
tokio = { version = "1", features = ["sync", "rt", "rt-multi-thread", "macros", "time", "signal", "io-std", "io-util"] }
