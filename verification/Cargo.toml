[package]
name = "docima"
version = "0.9.1"
edition = "2021"
publish = false

[dependencies]
data-encoding = "2"
png = "0.17"
project-root = "0.2"
