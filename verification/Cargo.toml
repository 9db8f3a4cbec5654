[package]
name = "influx_line"
version = "0.1.0"
edition = "2021"
publish = false

[dependencies]
chrono = "0.4"
thiserror = "2"
derive_more = { version = "2", features = ["display", "from", "into"] }
