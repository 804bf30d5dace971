[package]
name = "pgsafe"
version = "0.1.0"
edition = "2021"
publish = false

[dependencies]
anstyle = "=1.0.14"
clap = { version = "=4.6.7", features = ["derive"] }
globset = "=0.4.21"
lsp-server = "=0.7.9"
lsp-types = "=0.97.0"
pg_query = "=6.2.1"
regex = "=1.13.1"
serde = { version = "=1.0.229", features = ["derive"] }
serde_json = { version = "=1.0.154", features = ["preserve_order"] }
toml = "=0.8.23"
