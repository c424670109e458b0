[package]
name = "single_winner_d21_voting"
version = "0.1.0"
edition = "2021"

[dependencies]
anchor-lang = { version = "=0.31.2", features = ["init-if-needed"] }
