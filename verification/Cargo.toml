[package]
name = "bunyan_formatter"
version = "0.1.0"
edition = "2021"
publish = false

[dependencies]
gethostname = "*"
log = "0.4"
serde_json = "1"
time = { version = "0.3", features = ["formatting", "parsing"] }
tracing = "0.1"
tracing-core = "0.1"
tracing-log = "*"
tracing-subscriber = "0.3"
