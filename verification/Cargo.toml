[package]
name = "sexpr_codec"
version = "0.1.0"
edition = "2021"
publish = false

[dependencies]
itoa = "1"
once_cell = "1"
serde = "1"
thiserror = "1"
