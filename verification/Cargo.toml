[package]
name = "circ"
version = "0.1.0"
edition = "2021"
publish = false

[dependencies]
getopts = "0.2"
log = "0.4"
regex = "1"
rustc-serialize = "0.3"
term = "*"
time = "0.1"
