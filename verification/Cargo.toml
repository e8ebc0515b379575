[package]
name = "wormhole_transit"
version = "0.1.0"
edition = "2021"
publish = false

[dependencies]
anyhow = "1"
async-std = "1"
futures = "0.3"
hex = "0.4"
hkdf = "0.12"
log = "0.4"
pnet = "0.35"
rand = "0.8"
serde = { version = "1", features = ["derive"] }
serde_derive = "1"
serde_json = "1"
sha2 = "0.10"
sodiumoxide = "0.2"
