[package]
name = "disk_cleaner"
version = "0.1.0"
edition = "2021"
publish = false

[dependencies]
bytesize = "*"
chrono = "0.4"
clap = { version = "4", features = ["derive"] }
colored = "*"
dialoguer = "*"
dirs = "*"
indicatif = "*"
jwalk = "*"
num_cpus = "1"
serde = { version = "1", features = ["derive"] }
serde_json = "1"
