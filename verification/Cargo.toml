[package]
name = "crawlee_storage"
version = "0.1.5"
edition = "2021"
publish = false

[dependencies]
chrono = { version = "0.4", features = ["serde"] }
pyo3 = { version = "0.27", features = ["chrono", "abi3-py310"] }
pyo3-async-runtimes = { version = "0.27", features = ["tokio-runtime"] }
pyo3-stub-gen = "*"
pythonize = "0.27"
serde = { version = "1", features = ["derive"] }
serde_json = "1"
sha2 = "0.10"
tokio = { version = "1", features = ["fs", "sync", "rt"] }
tracing = "0.1"
