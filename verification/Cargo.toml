[package]
name = "haze"
version = "0.1.0"
edition = "2021"
publish = false

[dependencies]
anstyle = "=1.0.14"
clap = { version = "=4.6.7", features = ["derive"] }
color-print = "=0.3.7"
env_logger = "=0.11.11"
fs_extra = "=1.3.0"
glob = "=0.3.4"
json-strip-comments = "=1.0.4"
log = "=0.4.34"
miette = { version = "*", features = ["fancy"] }
serde = { version = "=1.0.229", features = ["derive"] }
serde_json = "=1.0.154"
thiserror = "=2.0.21"
walkdir = "=2.5.0"
