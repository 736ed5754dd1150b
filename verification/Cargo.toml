[package]
name = "range_fetch"
version = "0.1.0"
edition = "2021"
publish = false

[dependencies]
futures = "0.3"
hyper = { version = "0.14", features = ["client", "http1", "http2", "tcp"] }
hyper-tls = "0.5"
log = "0.4"
simple_logger = "4"
tokio = { version = "1", features = ["macros", "rt-multi-thread"] }
