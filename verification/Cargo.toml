[package]
name = "trie_repair"
version = "0.1.0"
edition = "2021"
publish = false

[dependencies]
alloy-consensus = "*"
clap = { version = "4", features = ["derive"] }
eyre = "0.6"
reth-chainspec = "*"
reth-cli = "*"
reth-cli-runner = "*"
reth-db-api = "*"
reth-provider = "*"
reth-trie = "*"
reth-trie-db = "*"
tracing = "0.1"
