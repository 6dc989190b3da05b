[package]
name = "airline"
version = "0.1.0"
edition = "2021"

[dependencies]
airline-macros = "*"
