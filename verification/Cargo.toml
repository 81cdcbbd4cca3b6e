[package]
name = "olympus"
version = "0.1.0"
edition = "2021"
publish = false

[dependencies]
ariadne = "0.4"
async-trait = "0.1"
clap = { version = "4", features = ["derive"] }
eyre = "0.6"
futures = "0.3"
heck = "0.5"
lid = "*"
lz4_flex = "0.11"
rand = "0.8"
tokio = { version = "1", features = ["io-util", "macros", "net", "rt-multi-thread", "sync", "time"] }
tokio-util = { version = "0.7", features = ["codec"] }
unicode-segmentation = "1"
zigzag = "0.1"
