[package]
name = "stitch"
version = "0.1.0"
edition = "2021"
publish = false

[dependencies]
zerocopy = { version = "0.8", features = ["derive"] }
serde = { version = "1", features = ["derive"] }
toml = "0.8"
thiserror = "2"
clap = { version = "4", features = ["derive"] }
image = { version = "0.25", default-features = false, features = ["png", "jpeg"] }
kanal = "0.1"
tokio = { version = "1", features = ["rt", "rt-multi-thread", "sync", "macros"] }
tracing = "0.1"
futures = "0.3"
rayon = "1"
glam = "0.29"
itertools = "0.13"
gif = "0.13"
notify = "7"
pollster = "0.4"
