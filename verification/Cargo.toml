[package]
name = "flexi_csv"
version = "0.1.0"
edition = "2021"
publish = false

[dependencies]
clap = { version = "=4.6.7", features = ["derive"] }
deunicode = "=1.6.2"
Inflector = "=0.11.4"
indicatif = "=0.17.11"
polars = { version = "=0.55.2", default-features = false, features = ["lazy", "csv", "strings", "temporal"] }
