[package]
name = "fdn"
version = "0.1.0"
edition = "2021"
publish = false

[dependencies]
ringbuf = "0.2"
hound = "3"
itertools = "0.10"
structopt = "0.3"
vst = "0.2"
