[package]
name = "moesniper"
version = "0.1.0"
edition = "2021"
publish = false

[dependencies]
sha2 = "=0.11.1"
serde = { version = "=1.0.229", features = ["derive"] }
serde_json = "=1.0.154"
llmosafe = "=0.7.7"

[dev-dependencies]
tempfile = "=3.27.0"
