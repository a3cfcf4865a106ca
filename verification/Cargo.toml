[package]
name = "lucien"
version = "0.1.0"
edition = "2021"
publish = false

[dependencies]
fuzzy-matcher = "=0.3.7"
toml_edit = "=0.25.17"
toml = "=1.1.8"
serde = { version = "=1.0.229", features = ["derive"] }
iced = { version = "=0.14.0", default-features = false, features = ["advanced", "image-without-codecs", "tokio", "tiny-skia", "x11"] }
image = { version = "=0.25.10", default-features = false, features = ["png"] }
tokio = { version = "=1.54.1", features = ["fs", "time", "rt", "macros"] }
xdg = "=3.0.0"
nix = { version = "=0.31.3", features = ["socket", "process"] }
resvg = "=0.49.0"
tracing = "=0.1.44"
tracing-subscriber = { version = "=0.3.23", features = ["env-filter"] }
tracing-appender = "=0.2.5"
anyhow = "=1.0.104"
