[package]
name = "holochain_raft"
version = "0.1.0"
edition = "2021"
publish = false

[dependencies]
openraft = { version = "=0.9.25", features = ["serde"] }
holo_hash = { version = "=0.7.1", features = ["hashing", "encoding"] }
holochain_serialized_bytes = "=0.0.57"
tokio = { version = "=1.54.1", features = ["sync", "time", "rt", "macros"] }
serde = { version = "=1.0.228", features = ["derive"] }
serde_bytes = "=0.11.19"
anyhow = "=1.0.104"
anyerror = "=0.1.13"
tracing = "=0.1.44"
maplit = "=1.0.2"
futures = "=0.3.34"
holochain_zome_types = "*"
holochain_nonce = "*"
