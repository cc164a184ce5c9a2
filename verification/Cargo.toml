[package]
name = "rigstats"
version = "0.1.0"
edition = "2021"
publish = false

[dependencies]
serde = { version = "=1.0.229", features = ["derive"] }
serde_json = "=1.0.154"
chrono = "=0.4.45"
ureq = { version = "=2.12.1", features = ["json"] }
egui = "=0.37.0"
