[package]
name = "mesh"
version = "0.1.0"
edition = "2021"
publish = false

[dependencies]
uuid = { version = "1", features = ["v4"] }
glam = "0.29"
wgpu = "24"
tao = "0.31"
freetype-rs = "0.37"
tokio = { version = "1", features = ["rt-multi-thread", "macros"] }
tracing = "0.1"
tracing-subscriber = { version = "0.3", features = ["env-filter"] }
tracing-error = "0.2"
bitflags = "2"
thiserror = "2"
