[package]
name = "link_search"
version = "0.1.0"
edition = "2021"
publish = false

[dependencies]
env_logger = "*"
html5ever = "0.24"
log = "0.4"
reqwest = "0.9"
