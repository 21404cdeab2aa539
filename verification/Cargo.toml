[package]
name = "maa_auto_reverse_rs"
version = "0.1.0"
edition = "2021"
publish = false

[dependencies]
strsim = "=0.11.1"
anyhow = "=1.0.104"
serde = { version = "=1.0.229", features = ["derive"] }
serde_json = "=1.0.154"
ron = "=0.12.3"
clap = { version = "=4.6.7", default-features = false, features = ["std", "derive", "help", "usage"] }
chrono = "=0.4.45"
crossbeam-channel = "=0.5.17"
once_cell = "=1.21.4"
tracing = "=0.1.44"
tracing-subscriber = { version = "=0.3.23", default-features = false, features = ["fmt", "std"] }
image = { version = "=0.25.10", default-features = false, features = ["png"] }
imageproc = { version = "=0.27.0", default-features = false, features = ["text"] }
ab_glyph = "=0.2.32"
ndarray = "=0.17.2"
maa-framework = { version = "=1.27.0", features = ["dynamic", "image"] }
iced = { version = "=0.14.0", default-features = false, features = ["tiny-skia", "image"] }
window-enumerator = "=0.4.1"
