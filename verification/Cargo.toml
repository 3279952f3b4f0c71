[package]
name = "zo_abi"
version = "0.1.0"
edition = "2021"
publish = false

[dependencies]
anchor-lang = "0.24"
bytemuck = { version = "1", features = ["min_const_generics"] }
fixed = "1"
solana-program = "1.9"
