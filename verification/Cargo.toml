[package]
name = "rtest"
version = "0.1.0"
edition = "2021"
publish = false

[dependencies]
clap = { version = "4", features = ["derive"] }
get-size2 = "=0.10.1"
glob = "0.3"
pyo3 = { version = "0.26", features = ["abi3-py310"] }
ruff_python_ast = "=0.0.4"
ruff_python_parser = "=0.0.4"
ruff_python_stdlib = "=0.0.4"
ruff_text_size = "=0.0.4"
serde = { version = "1", features = ["derive"] }
serde_json = "1"
tempfile = "3"
toml = "0.9"
walkdir = "2"
