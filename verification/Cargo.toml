[package]
name = "impact"
version = "0.1.0"
edition = "2021"
publish = false

[dependencies]
bincode = "1"
chrono = "*"
fern = "*"
humansize = "*"
log = "*"
metrohash = "*"
path-slash = "*"
serde = { version = "*", features = ["derive"] }
serde_json = "*"
structopt = "*"
thiserror = "*"
xml-rs = "*"

[dependencies.image]
version = "*"
default-features = false
features = ["png", "jpeg", "bmp", "ico", "pnm", "tiff"]
