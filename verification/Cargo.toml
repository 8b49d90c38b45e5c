[package]
name = "ezpdb"
version = "0.1.0"
edition = "2021"
publish = false

[dependencies]
ms-pdb = "*"
uuid = "1"
zerocopy = { version = "0.8", features = ["derive"] }
log = "0.4"
anyhow = "1"
serde = { version = "1", features = ["derive"] }
clap = { version = "4", features = ["derive"] }
env_logger = "*"
