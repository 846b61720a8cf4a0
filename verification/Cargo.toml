[package]
name = "namir_engine"
version = "0.1.0"
edition = "2021"
publish = false

[dependencies]
rtrb = "0.3"
rubato = "0.16"
