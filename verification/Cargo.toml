[package]
name = "godotty"
version = "0.1.0"
edition = "2021"
publish = false

[dependencies]
godot = { version = "=0.5.5", features = ["api-4-7"] }
libghostty-vt = "=0.2.2"
notify = "=8.2.1"
portable-pty = "=0.9.0"
rustix = { version = "=1.1.6", features = ["fs"] }
