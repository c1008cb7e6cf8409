[package]
name = "codech"
version = "0.1.0"
edition = "2021"
publish = false

[dependencies]
rayon = "1"
clap = "2"
exitcode = "1"
num_cpus = "1"
