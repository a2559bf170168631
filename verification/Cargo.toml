[package]
name = "lhef"
version = "0.1.0"
edition = "2021"
publish = false

[dependencies]
fast-float = "=0.2.0"
ryu = "=1.0.23"
xmltree = "=0.12.0"
