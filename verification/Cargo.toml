[package]
name = "eir"
version = "0.1.0"
edition = "2021"
publish = false

[dependencies]
roaring = "0.10"
rkyv = "0.8"
bytecheck = "0.8"
serde = { version = "1", features = ["derive"] }
thiserror = "2"
