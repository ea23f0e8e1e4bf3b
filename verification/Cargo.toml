[package]
name = "kmer_counter_per_read"
version = "0.1.0"
edition = "2021"
publish = false

[dependencies]
clap = { version = "*", features = ["derive"] }
fxread = "*"
