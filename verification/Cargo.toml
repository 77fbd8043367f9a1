[package]
name = "cosmic-monitor"
version = "0.1.0"
edition = "2021"
publish = false

[dependencies]
humansize = "2"
sysinfo = "*"
nvml-wrapper = "*"
libc = "0.2"
log = "0.4"
env_logger = "*"
clap_lex = "*"
open = "5"
tokio = { version = "1", default-features = false, features = ["sync"] }
