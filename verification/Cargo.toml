[package]
name = "todo"
version = "0.2.0"
edition = "2021"
publish = false

[dependencies]
ansi_term = "0.12"
clap = "2"
dirs = "*"
