[package]
name = "tokey"
version = "0.1.0"
edition = "2021"
publish = false

[dependencies]
evdev = "=0.13.2"
nix = { version = "=0.31.3", features = ["fs", "event"] }
xdg = "=3.0.0"
toml = "=1.1.6"
serde = { version = "=1.0.229", features = ["derive"] }
dbus = "=0.9.12"
dbus-crossroads = "=0.5.3"
