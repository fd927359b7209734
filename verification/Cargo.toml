[package]
name = "corpus_cleaner"
version = "0.1.0"
edition = "2021"
publish = false

[dependencies]
bloomfilter = "*"
clap = { version = "4", features = ["derive"] }
rayon = "1"
serde_json = "1"
