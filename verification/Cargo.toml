[package]
name = "wayk_cse_patcher"
version = "0.1.0"
edition = "2021"
publish = false

[dependencies]
zip = "*"
url = "*"
json = "*"
tempfile = "*"
which = "*"
clap = "*"
log = "*"
env_logger = "*"
anyhow = "*"
reqwest = { version = "*", default-features = false, features = ["blocking", "rustls-tls"] }
winapi = { version = "0.3", features = ["winbase"] }
widestring = "*"
