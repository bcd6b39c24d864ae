[package]
name = "irc_core"
version = "0.1.0"
edition = "2021"
publish = false

[dependencies]
futures = "0.1"
tokio = "0.1"
dns-lookup = "1"
