[package]
name = "lessons"
version = "0.1.0"
edition = "2021"
publish = false

[dependencies]
tokio = { version = "=1.54.1", features = ["rt-multi-thread", "macros", "time", "sync"] }
ureq = "=2.12.1"
