[package]
name = "incident_review"
version = "0.1.0"
edition = "2021"
publish = false

[dependencies]
anyhow = "*"
inquire = "=0.9.4"
once_cell = "*"
reqwest = { version = "=0.13.5", features = ["json", "query"], default-features = false }
serde = { version = "*", features = ["derive"] }
serde_json = "*"
strsim = "=0.11.1"
tracing = "*"
