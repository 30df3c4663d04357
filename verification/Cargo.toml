[package]
name = "query_core"
version = "0.1.0"
edition = "2021"
publish = false

[dependencies]
itertools = "=0.15.0"
octocrab = "=0.44.1"
