[package]
name = "tracing-ohos"
version = "0.1.0"
edition = "2021"
publish = false

[dependencies]
hilog-sys = "*"
tracing = "0.1"
tracing-subscriber = "0.3"
