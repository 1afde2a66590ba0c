[package]
name = "mpsc_queue"
version = "0.1.0"
edition = "2021"

[dependencies]
yield-now = "*"
