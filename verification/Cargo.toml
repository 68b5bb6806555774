[package]
name = "qasmsim"
version = "1.3.0"
edition = "2021"
publish = false

[dependencies]
num = "=0.4.3"
rand = "=0.8.8"
structopt = "=0.3.26"
prettytable-rs = "=0.10.0"
csv = "=1.4.0"
