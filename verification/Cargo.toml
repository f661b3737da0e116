[package]
name = "ips_solver"
version = "0.1.0"
edition = "2021"
publish = false

[dependencies]
rand = "0.8"
clap = "3.2"
image = "0.24"
