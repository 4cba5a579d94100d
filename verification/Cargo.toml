[package]
name = "blue_onyx"
version = "1.0.0"
edition = "2021"
publish = false

[dependencies]
zune-jpeg = "*"
zune-core = "*"
fast_image_resize = "*"
uuid = { version = "*", features = ["v4"] }
crossbeam = "*"
tokio = { version = "*", features = ["sync", "rt"] }
ndarray = "*"
anyhow = "*"
serde = { version = "*", features = ["derive"] }
serde_yaml = "*"
num_cpus = "*"
raw-cpuid = "*"
ort = { version = "=2.0.0-rc.13", default-features = false, features = ["ndarray"] }
