[package]
name = "rusty_panda"
version = "0.1.0"
edition = "2021"
publish = false

[dependencies]
anyhow = "=1.0.104"
arrow = { version = "=53.4.1", default-features = false }
csv = "=1.4.0"
egui_extras = "=0.29.1"
egui_plot = "=0.29.0"
env_logger = "=0.11.11"
log = "=0.4.34"
palette = "=0.7.7"
parquet = { version = "=53.4.1", default-features = false, features = ["arrow", "snap", "brotli", "flate2", "lz4", "zstd", "base64"] }
rfd = "=0.15.4"
serde_json = "=1.0.154"

[dev-dependencies]
bytes = "=1.12.1"
