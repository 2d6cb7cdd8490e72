[package]
name = "block_indexer"
version = "0.1.0"
edition = "2021"
publish = false

[dependencies]
async-trait = "0.1"
dotenvy = "0.15"
inindexer = "*"
log = "0.4"
redis = { version = "*", features = ["aio", "tokio-comp", "connection-manager"] }
serde = { version = "1", features = ["derive"] }
serde_json = "1"
simple_logger = "5"
tokio = { version = "1", features = ["macros", "rt-multi-thread"] }
