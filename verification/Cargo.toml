[package]
name = "upenn_curf_scraper"
version = "1.0.0"
edition = "2021"
publish = false

[dependencies]
html5ever = "0.26"
markup5ever_rcdom = "0.2"
serde = { version = "1", features = ["derive"] }
ron = "0.8"
tokio = { version = "1", features = ["fs", "io-std", "io-util", "macros", "rt-multi-thread"] }
reqwest = { version = "0.11", default-features = false, features = ["rustls-tls"] }
clap = { version = "4", features = ["derive"] }
open = "5"
