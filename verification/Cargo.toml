[package]
name = "system_monitor"
version = "0.1.0"
edition = "2021"
publish = false

[dependencies]
nvml-wrapper = "=0.10.0"
log = "=0.4.35"
slint = { version = "=1.18.1", default-features = false, features = ["std", "compat-1-2"] }
sysinfo = { version = "=0.38.4", default-features = false, features = ["system", "disk", "network"] }
