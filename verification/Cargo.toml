[package]
name = "chain_fusion"
version = "0.1.0"
edition = "2021"
publish = false

[dependencies]
candid = "0.10"
ethers-core = "2.0"
evm-rpc-canister-types = "0.1"
ic-cdk = "0.14"
ic-cdk-timers = "0.8"
