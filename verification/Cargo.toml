[package]
name = "alpino_tokenizer"
version = "0.1.0"
edition = "2021"
publish = false

[dependencies]
clap = "*"
clap_complete = "*"
conllu = "*"
lazy_static = "*"
libc = "*"
regex = "*"
stdinout = "*"
udgraph = "*"
widestring = "*"
