[package]
name = "job_mailer"
version = "0.1.0"
edition = "2021"
publish = false

[dependencies]
lettre = { version = "=0.11.23", default-features = false, features = ["builder", "smtp-transport", "rustls-tls", "hostname", "pool"] }
uuid = { version = "=1.29.0", features = ["v4"] }
serde = { version = "=1.0.229", features = ["derive"] }
serde_json = "=1.0.154"
reqwest = { version = "=0.12.28", default-features = false, features = ["json", "rustls-tls"] }
tokio = { version = "=1.54.1", features = ["rt", "rt-multi-thread"] }
dirs = "=5.0.1"
