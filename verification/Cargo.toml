[package]
name = "ogn_aprs_parser"
version = "0.1.0"
edition = "2021"
publish = false

[dependencies]
chrono = "0.4"
influxdb2 = "*"
tokio = { version = "1", features = ["full"] }
tokio-stream = "0.1"
log = "0.4"
dotenv = "0.15"
