[package]
name = "xnode_demo"
version = "0.1.0"
edition = "2021"
publish = false

[dependencies]
ethsign = "=0.9.0"
hex = "=0.4.3"
rand = "=0.10.3"
tiny-keccak = { version = "=2.0.2", features = ["keccak"] }
serde = { version = "=1.0.229", features = ["derive"] }
serde_json = "=1.0.151"
log = "=0.4.34"
env_logger = "=0.11.11"
futures = "=0.3.34"
reqwest = { version = "=0.13.5", features = ["json", "cookies"] }
actix-web = "=4.15.0"
actix-cors = "=0.7.2"
