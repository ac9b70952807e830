[package]
name = "mask"
version = "0.1.0"
edition = "2021"
publish = false

[dependencies]
clap = { version = "=4.6.7", features = ["cargo", "env", "string", "unstable-ext"] }
pulldown-cmark = { version = "=0.5.3", default-features = false }
