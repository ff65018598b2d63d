[package]
name = "truth_table"
version = "0.1.0"
edition = "2021"
publish = false

[dependencies]
indexmap = "=2.14.2"
prettytable-rs = "=0.10.0"
genpdf = "=0.2.0"
