[package]
name = "rsheet_core"
version = "0.1.0"
edition = "2021"
publish = false

[dependencies]
rsheet_lib = "=0.1.4"
log = "*"
