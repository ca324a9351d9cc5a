[package]
name = "replay_decoder"
version = "0.1.0"
edition = "2021"
publish = false

[dependencies]
byteorder = "=1.5.0"
bytes = "=0.5.6"
clap = { version = "=3.2.25", features = ["derive"] }
encoding = "=0.2.33"
image = "=0.23.14"
imageproc = "=0.22.0"
memmap = "=0.7.0"
regex = "=1.13.1"
reqwest = { version = "=0.10.10", features = ["blocking", "json"] }
rusttype = "=0.9.3"
serde_json = "=1.0.154"
