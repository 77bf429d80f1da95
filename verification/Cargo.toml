[package]
name = "mini_graph"
version = "0.1.0"
edition = "2021"
publish = false

[dependencies]
indexmap = "2"
assert_no_alloc = "*"
cpal = "*"
