[package]
name = "rustruct"
version = "0.1.0"
edition = "2021"
publish = false

[dependencies]
anyhow = "*"
chrono = "*"
crossbeam = "*"
intervaltree = "*"
lru = "*"
num_cpus = "*"
schemars = "*"
serde = { version = "*", features = ["derive"] }
serde_json = "*"
thiserror = "*"
typetag = "*"
