[package]
name = "hyperloop"
version = "0.1.0"
edition = "2021"
publish = false

[dependencies]
crossbeam-queue = "0.3"
heapless = "0.7"
embedded-time = "0.12"
futures = "0.3"
log = "0.4"

[dev-dependencies]
