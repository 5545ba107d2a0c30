[package]
name = "sisyphus32"
version = "0.1.0"
edition = "2021"
publish = false

[dependencies]
rand = "=0.9.5"
rayon = "=1.12.0"
serde = { version = "=1.0.229", features = ["derive"] }
serde_json = "=1.0.154"
ureq = { version = "=3.5.1", default-features = false, features = ["json"] }
shakmaty = "=0.29.4"
shakmaty-syzygy = "=0.27.0"
thiserror = "2"
