[package]
name = "treeshark"
version = "0.1.0"
edition = "2021"
publish = false

[dependencies]
anyhow = "1"
bytesize = "1"
chrono = "0.4"
clap = { version = "4", features = ["derive"] }
colored = "2"
ctrlc = "3"
dialoguer = "0.11"
indicatif = "0.17"
num_cpus = "1"
parking_lot = "0.12"
rayon = "1"
rusqlite = { version = "0.31", features = ["bundled"] }
serde = { version = "1", features = ["derive"] }
serde_json = "1"
serde_yaml = "0.9"
