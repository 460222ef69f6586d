[package]
name = "sentence_gpt_rs_mlx"
version = "0.1.0"
edition = "2021"
publish = false

[dependencies]
rand = "0.8"
rand_chacha = "0.3"
serde = { version = "1", features = ["derive"] }
serde_json = "1"
bincode = "1"
rayon = "1"
ratatui = "0.29"
crossterm = "0.28"
