[package]
name = "diff_lsp"
version = "0.1.0"
edition = "2021"
publish = false

[dependencies]
patchkit = "=0.3.9"
rowan = "=0.16.1"
text-size = "=1.1.1"
tower-lsp-server = "=0.23.0"
serde_json = "=1.0.154"
tokio = { version = "=1.54.1", features = ["rt-multi-thread", "io-std", "sync", "macros"] }
tracing-subscriber = "=0.3.23"
scip = "=0.10.0"
protobuf = "=3.7.2"

[dev-dependencies]
tempfile = "=3.27.0"
