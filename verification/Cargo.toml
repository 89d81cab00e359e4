[package]
name = "votings_service"
version = "0.1.0"
edition = "2021"
publish = false

[dependencies]
exonum_sodiumoxide = "0.0"
protobuf = "2.8"
