[package]
name = "dk_engine"
version = "0.1.0"
edition = "2021"
publish = false

[dependencies]
dashmap = "=6.2.1"
sha2 = "=0.10.9"
uuid = { version = "=1.29.0", features = ["v4"] }
chrono = { version = "=0.4.45", features = ["serde"] }
serde = { version = "=1.0.229", features = ["derive"] }
serde_json = "=1.0.154"
rmp-serde = "=1.3.1"
anyhow = "=1.0.104"
async-trait = "=0.1.92"
tokio = { version = "=1.54.1", features = ["rt-multi-thread", "macros", "sync", "time", "fs"] }
tracing = "=0.1.44"
arc-swap = "=1.9.3"
sqlx = { version = "=0.8.6", default-features = false, features = ["postgres", "runtime-tokio", "uuid", "chrono", "json", "macros"] }
gix = { version = "=0.90.0", default-features = false, features = ["sha1"] }
redis = { version = "=1.8.1", default-features = false, features = ["tokio-comp", "connection-manager", "script"] }
tree-sitter = "=0.27.1"
tree-sitter-python = "=0.25.0"
tree-sitter-typescript = "=0.23.2"
tree-sitter-bash = "=0.25.1"
tree-sitter-haskell = "=0.24.1"
tree-sitter-julia = "=0.23.1"
tree-sitter-scala = "=0.26.4"
tree-sitter-kotlin-codanna = "=0.3.9"
streaming-iterator = "=0.1.9"
tree-sitter-rust = "=0.24.2"
tree-sitter-go = "=0.25.0"
tree-sitter-java = "=0.23.5"
