[package]
name = "beholder_core"
version = "0.1.0"
edition = "2021"
publish = false

[dependencies]
serde = { version = "1", features = ["derive"] }
serde_json = "1"
sysinfo = { version = "0.32", default-features = false, features = ["system"] }
nvml-wrapper = "0.10"
thiserror = "1"
clap = { version = "4", default-features = false, features = ["std", "derive", "help", "usage", "error-context"] }
chrono = { version = "0.4", default-features = false, features = ["clock", "std"] }
