[package]
name = "mozlz4_codec"
version = "0.1.0"
edition = "2021"
publish = false

[dependencies]
mozlz4 = "*"
structopt = "0.3"
clap = "2"
termcolor = "1"
atty = "0.2"
