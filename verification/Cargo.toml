[package]
name = "poker_hand"
version = "0.1.0"
edition = "2021"

[dependencies]
itertools = "0.10"
rand = "0.8"
