[package]
name = "tlac"
version = "0.1.0"
edition = "2021"
publish = false

[dependencies]
sha2 = "=0.10.9"
serde = { version = "=1.0.229", features = ["derive"] }
serde_json = "=1.0.154"
chrono = "=0.4.45"
log = "=0.4.35"
env_logger = "=0.11.11"
tokio = { version = "=1.54.1", features = ["full"] }
reqwest = { version = "=0.12.28", default-features = false, features = ["json"] }
rusqlite = { version = "=0.32.1", features = ["bundled"] }
nix = { version = "=0.29.0", features = ["ptrace", "process"] }
procfs = "=0.17.0"
aya = { version = "=0.13.1", features = ["async_tokio"] }
bytes = "=1.12.1"
ort = { version = "=2.0.0-rc.15", default-features = false, features = ["std", "load-dynamic"] }
tract-onnx = "=0.21.19"
kstring = "=2.0.2"
