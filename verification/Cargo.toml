[package]
name = "grobid"
version = "0.1.0"
edition = "2021"
publish = false

[dependencies]
biblatex = "*"
reqwest = { version = "0.12", default-features = false, features = ["multipart", "rustls-tls"] }
roxmltree = "*"
serde = { version = "1", features = ["derive"] }
thiserror = "2"
tokio = { version = "1", features = ["fs", "time", "macros", "rt-multi-thread"] }
url = "2"
