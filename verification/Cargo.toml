[package]
name = "mass_rename"
version = "0.1.0"
edition = "2021"
publish = false

[dependencies]
regex = "1"
glob = "0.3"
clap = "2"
tabwriter = "1"
