[package]
name = "pfc_notes"
version = "0.1.0"
edition = "2021"
publish = false

[dependencies]
cosmwasm-schema = "1"
cosmwasm-std = "1"
cw-ownable = "0.5"
thiserror = "1"
