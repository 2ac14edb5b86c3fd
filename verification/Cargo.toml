[package]
name = "be_music_cabinet"
version = "0.1.0"
edition = "2021"
publish = false

[dependencies]
sysinfo = "*"
num_cpus = "*"
smol = "*"
futures = "*"
log = "*"
env_logger = "*"
clap = { version = "*", features = ["derive"] }
serde = { version = "*", features = ["derive"] }
serde_json = "*"
bms-rs = "*"
encoding_rs = "*"
strsim = "*"
once_cell = "*"
blocking = "*"

[dev-dependencies]
tempfile = "*"
