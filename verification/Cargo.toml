[package]
name = "wordboard"
version = "0.1.0"
edition = "2021"
publish = false

[dependencies]
bytes = "1"
dotenvy = "0.15"
prost = "*"
rand = "*"
tokio = { version = "1", features = ["rt-multi-thread", "net", "time", "sync", "io-util", "macros", "fs"] }
