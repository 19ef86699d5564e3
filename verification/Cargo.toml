[package]
name = "spel_framework_core"
version = "0.1.0"
edition = "2021"
publish = false

[dependencies]
proc-macro2 = "=1.0.107"
quote = "=1.0.47"
serde_json = { version = "=1.0.154", features = ["unbounded_depth"] }
syn = { version = "=2.0.119", features = ["full", "extra-traits"] }
toml = "=0.8.23"
