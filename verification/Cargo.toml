[package]
name = "tari_base_node"
version = "0.1.0"
edition = "2021"
publish = false

[dependencies]
chrono = "0.4"
clap = "2.33"
futures = "0.3"
log = "0.4"
rand = "0.7"
rustyline = "6"
tokio = { version = "0.2", features = ["rt-threaded", "blocking"] }
tower = "0.3"
