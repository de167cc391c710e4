[package]
name = "rnote_recognition"
version = "0.1.0"
edition = "2021"
publish = false

[dependencies]
parry2d-f64 = { version = "=0.31.1", features = ["serde-serialize"] }
ndarray = "=0.17.2"
ort = { version = "=2.0.0-rc.15", default-features = false, features = ["ndarray", "load-dynamic"] }
serde = { version = "=1.0.229", features = ["derive"] }
tracing = "=0.1.44"
anyhow = "=1.0.104"
gtk4 = "=0.11.5"
libadwaita = "=0.9.2"
piet = "=0.8.0"
piet-cairo = "=0.8.0"
