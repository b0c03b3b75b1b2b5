[package]
name = "fastq_prep"
version = "0.1.0"
edition = "2021"
publish = false

[dependencies]
flate2 = "*"
clap = { version = "*", features = ["derive"] }
crossbeam = "*"
num_cpus = "*"
serde = { version = "*", features = ["derive"] }
serde_json = "*"
