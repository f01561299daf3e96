[package]
name = "alias_exe"
version = "0.1.0"
edition = "2021"
publish = false

[dependencies]
regex = "1"
encoding_rs = "0.8"
clap = "2"
atty = "0.2"
termcolor = "1"
lazy_static = "1"
mrusty = "*"
