[package]
name = "validador_csv"
version = "0.1.0"
edition = "2021"

[dependencies]
chardetng = "=1.0.0"
encoding_rs = "=0.8.44"
polars = { version = "=0.49.1", default-features = false, features = ["csv", "json", "lazy", "temporal", "dtype-date"] }
regex = "=1.13.1"
serde = { version = "1", features = ["derive"] }
serde_json = "1"
unicode-normalization = "=0.1.26"
