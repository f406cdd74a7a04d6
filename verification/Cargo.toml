[package]
name = "sql-helper"
version = "0.1.0"
edition = "2021"
publish = false

[dependencies]
tree-sitter = "=0.20.10"
tree-sitter-java = "=0.20.2"
urlencoding = "=2.1.3"
encoding_rs = "=0.8.42"
serde = { version = "1", features = ["derive"] }
serde_json = "1"
chrono = "0.4"
futures = "0.3"
tokio = { version = "1", features = ["full"] }
tokio-util = { version = "0.7", features = ["compat"] }
sqlx = { version = "0.6", features = ["runtime-tokio-rustls", "any", "mysql", "postgres"] }
tiberius = { version = "0.12", default-features = false, features = ["tds73", "chrono", "rustls"] }
