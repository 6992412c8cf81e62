[package]
name = "apt-lists"
version = "0.1.0"
edition = "2021"
publish = false

[dependencies]
oma-apt = "*"
clap = { version = "4", features = ["derive"] }
clap_complete = "4"
serde = { version = "1", features = ["derive"] }
serde_json = "1"
