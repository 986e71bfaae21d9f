[package]
name = "futures_taskset"
version = "0.1.0"
edition = "2021"
publish = false

[dependencies]
futures-core = "*"
futures-task = "*"
parking_lot = "*"
