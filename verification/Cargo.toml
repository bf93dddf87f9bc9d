[package]
name = "deja_vu"
version = "0.1.0"
edition = "2021"
publish = false

[dependencies]
rustc-hash = "=2.1.3"
rustpython-parser = "=0.3.1"
ruff_python_parser = "=0.0.8"
ruff_python_ast = "=0.0.8"
ruff_text_size = "=0.0.8"
anyhow = "=1.0.104"
clap = { version = "=4.6.7", features = ["derive"] }
colored = "=2.2.0"
chrono = "=0.4.45"
serde = { version = "=1.0.229", features = ["derive"] }
serde_json = "=1.0.154"
thiserror = "=1.0.69"
tracing-subscriber = "=0.3.23"
rayon = "=1.12.0"
dashmap = "=5.5.3"
