[package]
name = "baywatch"
version = "0.1.0"
edition = "2021"
publish = false

[dependencies]
bollard = "*"
clap = { version = "*", features = ["derive"] }
futures = "*"
prettytable-rs = "*"
termion = "*"
tokio = { version = "*", features = ["rt-multi-thread", "macros"] }
