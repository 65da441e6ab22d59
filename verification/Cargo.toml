[package]
name = "srt"
version = "0.1.0"
edition = "2021"
publish = false

[dependencies]
argh = "=0.1.19"
bytes = "=1.12.1"
ctrlc = "=3.5.2"
futures = "=0.3.34"
itertools = "=0.10.5"
log = "=0.4.35"
tokio = { version = "=1.54.1", features = ["rt-multi-thread", "macros", "sync", "time"] }
