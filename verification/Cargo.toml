[package]
name = "bookmark_store"
version = "0.1.0"
edition = "2021"
publish = false

[dependencies]
clap = "2.33"
serde = "1.0"
serde_derive = "1.0"
serde_yaml = "0.8"
