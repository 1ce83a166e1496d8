[package]
name = "oai_harvester"
version = "0.1.0"
edition = "2021"
publish = false

[dependencies]
anyhow = "=1.0.104"
clap = { version = "=4.6.7", features = ["derive", "env"] }
csv = "=1.4.0"
dotenvy = "=0.15.7"
futures = "=0.3.34"
oai-pmh = "=0.5.1"
reqwest = { version = "=0.13.5", default-features = false }
shellexpand = "=3.1.2"
tokio = { version = "=1.53.2", default-features = false, features = ["macros", "rt-multi-thread", "process", "fs", "time", "io-util"] }
