[package]
name = "mmv"
version = "0.1.0"
edition = "2021"
publish = false

[dependencies]
anyhow = "1"
clap = "2"
exitcode = "1"
reflink = "*"
walkdir = "2"
yansi = "*"
