[package]
name = "slicelet"
version = "0.1.0"
edition = "2021"
publish = false

[dependencies]
log = "0.4"
mysql = "*"
simple_logger = "*"
threadpool = "1"

[dev-dependencies]
serde_json = "1"
