[package]
name = "squish_the_bots"
version = "0.1.0"
edition = "2021"
publish = false

[dependencies]
rand = "0.4"
getopts = "0.2"
