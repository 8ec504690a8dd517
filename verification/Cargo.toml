[package]
name = "tracesum"
version = "0.1.0"
edition = "2021"
publish = false

[dependencies]
anyhow = "1"
clap = { version = "4", features = ["derive"] }
clap_complete = "4"
clap_mangen = "*"
log = "0.4"
regex = "1"
shlex = "1"
signal-hook = "0.3"
simple_logger = "*"
strum = { version = "*", features = ["derive"] }

[dev-dependencies]
tempfile = "3"
