[package]
name = "omnyssh"
version = "0.1.0"
edition = "2021"
publish = false

[dependencies]
glob = "0.3"
dirs = "5"
russh = "0.46"
