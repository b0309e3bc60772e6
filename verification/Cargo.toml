[package]
name = "state_list"
version = "0.1.0"
edition = "2021"

[dependencies]
state = "0.5"
log = "0.4"
