[package]
name = "bom_recon"
version = "0.1.0"
edition = "2021"
publish = false

[dependencies]
rayon = "*"
calamine = "*"
csv = "*"
encoding_rs = "*"
serde = { version = "*", features = ["derive"] }
serde_json = "*"
chrono = { version = "*", features = ["serde"] }
rand = "*"
thiserror = "*"
