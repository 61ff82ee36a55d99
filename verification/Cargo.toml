[package]
name = "poincare_trace"
version = "0.1.0"
edition = "2021"
publish = false

[dependencies]
colored = "2"
indenter = "0.3"
quick-xml = "0.31"
