[package]
name = "ordered_pubsub"
version = "0.1.0"
edition = "2021"
publish = false

[dependencies]
google-cloud-pubsub = "0.30"
google-cloud-googleapis = { version = "0.16", features = ["pubsub"] }
google-cloud-gax = "0.19"
tokio = { version = "1", features = ["rt-multi-thread", "macros", "time"] }
tokio-util = "0.7"
