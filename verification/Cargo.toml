[package]
name = "pdf_core"
version = "0.1.0"
edition = "2021"
publish = false

[dependencies]
ttf-parser = "=0.25.1"
flate2 = "=1.1.10"
subsetter = "=0.2.6"
lopdf = "=0.46.0"
image = { version = "=0.25.10", default-features = false, features = ["png", "jpeg"] }
qrcode = { version = "=0.14.1", default-features = false, features = ["image"] }
serde = { version = "=1.0.229", features = ["derive"] }
serde_json = "=1.0.154"
