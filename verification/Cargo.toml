[package]
name = "fast_search"
version = "0.1.0"
edition = "2021"
publish = false

[dependencies]
aho-corasick = "*"
memchr = "*"
bytecount = "*"
ignore = "*"
memmap2 = "*"
