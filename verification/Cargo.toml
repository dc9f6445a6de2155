[package]
name = "dimland"
version = "0.1.0"
edition = "2021"
publish = false

[dependencies]
clap = { version = "4", features = ["derive"] }
ctrlc = "3"
smithay-client-toolkit = { version = "0.18", default-features = false }
