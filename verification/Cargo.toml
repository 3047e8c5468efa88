[package]
name = "ravro"
version = "0.1.0"
edition = "2021"
publish = false

[dependencies]
avro-rs = "=0.6.6"
csv = "=1.4.0"
glob = "=0.3.4"
prettytable-rs = "=0.10.0"
regex = "=1.13.1"
structopt = "=0.3.26"
