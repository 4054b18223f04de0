[package]
name = "rune_wallet"
version = "0.1.0"
edition = "2021"
publish = false

[dependencies]
bitcoin = "*"
ordinals = "*"
bs58 = "*"
tiny-keccak = { version = "*", features = ["sha3"] }
candid = "*"
ic-cdk = "*"
ic-cdk-timers = "*"
ic-stable-structures = "*"
ic-management-canister-types = "*"
icrc-ledger-types = "*"
serde = "*"
