[package]
name = "mergebams"
version = "0.1.0"
edition = "2021"
publish = false

[dependencies]
bam = "=0.1.4"
clap = "=4.6.7"
