[package]
name = "shuffle_service"
version = "0.1.0"
edition = "2021"
publish = false

[dependencies]
async-trait = "0.1"
clap = { version = "4", features = ["derive"] }
config = "0.13"
ethers-core = "2.0"
ethers-middleware = { version = "2.0", default-features = false }
ethers-providers = { version = "2.0", default-features = false }
ethers-signers = { version = "2.0", default-features = false }
eyre = "0.6"
jsonwebtoken = "8"
log = "0.4"
open-fastrlp = "0.1"
rsa = "0.8"
serde = { version = "1", features = ["derive"] }
serde_json = "1"
simplelog = "0.12"
thiserror = "1"
tokio = { version = "1", features = ["macros", "rt-multi-thread", "sync", "time"] }
tokio-stream = "0.1"
tonic = "0.8"
url = "2"
uuid = { version = "1", features = ["v4", "serde"] }
