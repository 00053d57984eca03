[package]
name = "img_dup"
version = "0.1.0"
edition = "2021"
publish = false

[dependencies]
image = { version = "=0.23.14", default-features = false, features = ["png", "jpeg", "gif"] }
img_hash = "=3.2.0"
num_cpus = "=1.17.0"
rayon = "=1.12.0"
clap = "=2.34.0"
serde = { version = "=1.0.229", features = ["derive"] }
serde_json = "=1.0.154"
