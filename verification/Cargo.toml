[package]
name = "log_tally"
version = "0.1.0"
edition = "2021"
publish = false

[dependencies]
chrono = { version = "0.4", default-features = false, features = ["std"] }
encoding_rs_io = "0.1"
glob = "0.3"
prometheus = "0.13"
prometheus_exporter = "0.8"
regex = "1"
