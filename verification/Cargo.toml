[package]
name = "sql_parser_demo"
version = "0.1.0"
edition = "2021"
publish = false

[dependencies]
colored = "=3.1.1"
strsim = "=0.11.1"

[dev-dependencies]
regex = "=1.13.1"
