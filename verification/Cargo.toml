[package]
name = "proofpass"
version = "0.1.0"
edition = "2021"
publish = false

[dependencies]
chrono = "=0.4.45"
cms = "=0.2.3"
hex = "=0.4.3"
lopdf = { version = "=0.46.0", default-features = false }
rsa = { version = "=0.9.10", features = ["sha2"] }
serde = { version = "=1.0.229", features = ["derive"] }
serde_json = "=1.0.154"
sha2 = { version = "=0.10.9", features = ["oid"] }
soroban-sdk = { version = "=25.3.2", features = ["hazmat-address", "testutils"] }
sp1-zkvm = "=6.10.0"
tokio = { version = "=1.54.1", features = ["macros", "rt-multi-thread"] }
x509-cert = "=0.2.5"
