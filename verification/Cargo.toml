[package]
name = "miden_faucet_server"
version = "0.1.0"
edition = "2021"
publish = false

[dependencies]
async-trait = "*"
dotenvy = "*"
miden-client = { version = "=0.11.11", features = ["tonic", "sqlite"] }
miden-objects = "=0.11.5"
rand = "=0.9.5"
rand_core = "=0.9.5"
rusqlite = { version = "*", features = ["bundled"] }
threadpool = "*"
tokio = { version = "*", default-features = false, features = ["rt", "rt-multi-thread", "time", "sync", "macros"] }
