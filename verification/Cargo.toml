[package]
name = "mattak"
version = "0.1.0"
edition = "2021"
publish = false

[dependencies]
iri-string = "=0.7.14"
percent-encoding = "=2.3.2"
regex = "=1.13.1"
serde = { version = "*", features = ["derive"] }
