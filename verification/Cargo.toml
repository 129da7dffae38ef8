[package]
name = "mailfilter"
version = "0.1.0"
edition = "2021"
publish = false

[dependencies]
chrono = "=0.4.45"
clap = { version = "=3.2.25", features = ["derive"] }
mailbox = "=0.1.4"
mime = "=0.3.17"
nom = "=7.1.3"
regex = "=1.13.1"
regex-syntax = "=0.8.11"
yz-nomstr = "=0.3.0"
