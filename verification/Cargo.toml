[package]
name = "raft"
version = "0.1.0"
edition = "2021"
publish = false

[dependencies]
rand = "0.8"
serde = { version = "1", features = ["derive"] }
serde_json = "1"
clap = "2"
ctrlc = "3"
shellexpand = "2"
stderrlog = "0.5"
log = "0.4"
