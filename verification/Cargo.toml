[package]
name = "rscsg"
version = "0.1.0"
edition = "2021"

[dependencies]
softfloat = "=1.0.0"
