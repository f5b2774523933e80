[package]
name = "delete_node_modules"
version = "0.1.0"
edition = "2021"
publish = false

[dependencies]
crossterm = "0.27"
ratatui = "0.23"
rayon = "1"
walkdir = "2"
