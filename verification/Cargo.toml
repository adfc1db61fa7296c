[package]
name = "crazyradio2"
version = "0.1.0"
edition = "2021"
publish = false

[dependencies]
ciborium = "*"
serde = "*"
flume = "*"
rusb = "*"
thiserror = "*"
