[package]
name = "docker_io_reporter"
version = "0.1.0"
edition = "2021"
publish = false

[dependencies]
bollard = "*"
clap = { version = "4", features = ["derive", "env"] }
eyre = "*"
hyper = { version = "1", features = ["server", "http1"] }
hyper-util = { version = "*", features = ["tokio"] }
log = "*"
pretty_env_logger = "*"
tokio = { version = "1", features = ["full"] }
