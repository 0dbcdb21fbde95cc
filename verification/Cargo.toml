[package]
name = "owl"
version = "0.1.0"
edition = "2021"
publish = false

[dependencies]
base64 = "0.22"
rand = "0.8"
thousands = "0.2"
poise = "0.6"
tokio = { version = "1", features = ["macros", "rt-multi-thread", "fs"] }
reqwest = { version = "0.11", default-features = false, features = ["json", "rustls-tls"] }
dotenv = "0.15"
tracing = "0.1"
tracing-subscriber = "0.3"
colored = "2"
itertools = "0.12"
