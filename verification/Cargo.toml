[package]
name = "course_work_parallel_computing"
version = "0.1.0"
edition = "2021"
publish = false

[dependencies]
regex = "1"
serde_json = "1"
log = "0.4"
env_logger = "*"
ctrlc = "3"
uuid = { version = "1", features = ["v4"] }
clap = { version = "4", features = ["derive"] }
thiserror = "1"
