[package]
name = "perfrecord"
version = "0.1.0"
edition = "2021"
publish = false

[dependencies]
pdb = "*"
pdb-addr2line = "*"
