[package]
name = "ticket_tracker"
version = "0.1.0"
edition = "2021"
publish = false

[dependencies]
serde = { version = "=1.0.229", features = ["derive"] }
serde_json = "=1.0.151"
structopt = { version = "=0.3.26", features = ["paw"] }
paw = "=1.0.0"
