[package]
name = "wutag"
version = "0.1.0"
edition = "2021"
publish = false

[dependencies]
rand = "0.8"
chrono = "0.4"
colored = "2"
clap = { version = "4", features = ["derive"] }
clap_complete = "4"
dirs = "5"
globwalk = "0.8"
interprocess = "1"
libc = "0.2"
log = "0.4"
notify = "6"
once_cell = "1"
pretty_env_logger = "0.5"
serde = { version = "1", features = ["derive"] }
serde_json = "1"
serde_yaml = "0.9"
thiserror = "1"
whoami = "1"
