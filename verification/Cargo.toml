[package]
name = "sampo_core"
version = "0.1.0"
edition = "2021"
publish = false

[dependencies]
semver = "=1.0.28"
toml = "=1.1.8"
toml_edit = "=0.25.17"
serde = { version = "=1.0.229", features = ["derive"] }
serde_json = { version = "=1.0.154", features = ["raw_value"] }
serde_yaml = "0.9"
thiserror = "=2.0.21"
changesets = "=0.4.0"
glob = "=0.3.4"
rustc-hash = "=2.1.3"
tree-sitter = "=0.27.1"
tree-sitter-xml = "=0.7.0"
reqwest = { version = "=0.12.28", default-features = false, features = ["blocking", "rustls-tls"] }

[dev-dependencies]
tempfile = "=3.27.0"
