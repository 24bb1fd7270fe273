[package]
name = "cheatess"
version = "0.1.0"
edition = "2021"
publish = false

[dependencies]
clap = { version = "*", features = ["derive"] }
clap-verbosity-flag = "*"
image = "*"
log = "*"
opencv = "*"
regex = "=1.13.1"
serde = { version = "*", features = ["derive"] }
serde_json = "*"
subprocess = "=0.2.15"
text-colorizer = "*"
thiserror = "*"
xcap = "*"
zmq = "*"
