[package]
name = "sims_iff"
version = "0.1.0"
edition = "2021"
publish = false

[dependencies]
anyhow = "1"
clap = { version = "4", features = ["derive"] }
formatx = "*"
image = { version = "0.25", default-features = false, features = ["bmp", "exr"] }
imagequant = "4"
quick-xml = { version = "*", features = ["serialize"] }
serde = { version = "1", features = ["derive"] }
serde_json = "1"
serde_with = "3"
