[package]
name = "gcamview"
version = "0.1.0"
edition = "2021"
publish = false

[dependencies]
serde = { version = "=1.0.229", features = ["derive"] }
serde_json = "=1.0.154"
toml = "=1.1.8"
rumqttc = { version = "=0.25.1", default-features = false }
gtk4 = "=0.10.3"
libadwaita = "=0.8.1"
gstreamer = "=0.24.5"
kstring = ">=2.0.0, <2.0.3"
