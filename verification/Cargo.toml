[package]
name = "statmind"
version = "0.1.0"
edition = "2021"
publish = false

[dependencies]
anyhow = "1"
clap = { version = "4", features = ["derive"] }
discord-rich-presence = "*"
env_logger = "*"
log = "0.4"
mach = "*"
process-memory = "*"
security-framework = "*"
serde = { version = "1", features = ["derive"] }
serde_json = "1"
sysinfo = "*"
