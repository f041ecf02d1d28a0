[package]
name = "binlang"
version = "0.1.0"
edition = "2021"
publish = false

[dependencies]
serde = { version = "=1.0.229", features = ["derive"] }
bincode = "=1.3.3"
pest = "=2.9.4"
pest_derive = "=2.9.4"

[dev-dependencies]
pest_meta = "=2.9.4"
pest_vm = "=2.9.4"
