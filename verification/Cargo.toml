[package]
name = "mt_comms"
version = "0.1.0"
edition = "2021"
publish = false

[dependencies]
num_cpus = "1"
crossbeam-channel = "0.5"
kanal = "0.1"
futures = "0.3"
glommio = "0.9"
tokio = { version = "1", features = ["rt-multi-thread", "macros", "sync", "time"] }
