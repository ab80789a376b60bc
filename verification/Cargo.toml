[package]
name = "tmc-langs-util"
version = "0.1.0"
edition = "2021"
publish = false

[dependencies]
fd-lock = "2"
log = "0.4"
tempfile = "3"
walkdir = "2"
