[package]
name = "mail_parser_rust"
version = "0.1.0"
edition = "2021"
publish = false

[dependencies]
regex = "1"
chardetng = "0.1"
encoding_rs = "0.8"
memmap2 = "0.9"
rayon = "1"
serde = { version = "1", features = ["derive"] }
