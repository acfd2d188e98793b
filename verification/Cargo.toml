[package]
name = "lattice_core"
version = "0.1.0"
edition = "2021"
publish = false

[dependencies]
serde = { version = "1", features = ["derive"] }
serde_yml = "0.0.13"
serde_json = "1"
once_cell = "1"
lazy_static = "1"
log = "0.4"
env_logger = "0.11"
termcolor = "1"
midir = "0.10"
nannou_osc = "0.19"
rustc-hash = "2"
indexmap = "2"
toml = "0.8"
notify = "8"
chrono = "0.4"
rand = "0.8"
parking_lot = "0.12"
