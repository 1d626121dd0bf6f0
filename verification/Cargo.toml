[package]
name = "subgraph_extraction"
version = "0.1.0"
edition = "2021"
publish = false

[dependencies]
apollo-compiler = "1"
indexmap = "2"
itertools = "0.13"
http = "1"
bytes = "1"
serde_json_bytes = "0.2"
