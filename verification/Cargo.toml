[package]
name = "github_gc"
version = "0.1.0"
edition = "2021"
publish = false

[dependencies]
anyhow = "1"
envconfig = "*"
graphql_client = { version = "*", default-features = false, features = ["reqwest-rustls"] }
reqwest = { version = "*", default-features = false, features = ["json", "rustls-tls"] }
tokio = { version = "1", features = ["macros", "rt-multi-thread"] }
tracing = "*"
tracing-subscriber = "*"
serde = { version = "1", features = ["derive"] }
