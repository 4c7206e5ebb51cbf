[package]
name = "agent_protocols"
version = "0.1.0"
edition = "2021"
publish = false

[dependencies]
chrono = "=0.4.45"
chrono-tz = "=0.10.4"
csv = "=1.4.0"
handlebars = "=6.4.4"
jsonschema = { version = "=0.17.1", default-features = false }
regex = "=1.13.1"
serde = { version = "=1.0.229", features = ["derive"] }
serde_json = "=1.0.154"
serde_urlencoded = "0.7"
tdigest = "=0.2.3"
uuid = "=1.29.0"
