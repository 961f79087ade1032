[package]
name = "cosmic_panel"
version = "0.1.0"
edition = "2021"
publish = false

[dependencies]
itertools = "=0.15.0"
serde = { version = "=1.0.229", features = ["derive"] }
ron = "=0.12.3"
xdg = "=3.0.0"
anyhow = "=1.0.104"
shlex = "1"
freedesktop-desktop-entry = "0.7"
