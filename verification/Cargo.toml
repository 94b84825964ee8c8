[package]
name = "chia_harvester_watcher"
version = "0.1.0"
edition = "2021"
publish = false

[dependencies]
anyhow = "1"
chase = "*"
chrono = "0.4"
lazy_static = "1"
prometheus = "0.13"
structopt = "0.3"
tokio = { version = "1", features = ["full"] }
warp = "0.3"

[dev-dependencies]
regex = "1"
