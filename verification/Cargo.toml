[package]
name = "mlm"
version = "0.1.0"
edition = "2021"
publish = false

[dependencies]
regex = "1"
sanitize-filename = "*"
sublime_fuzzy = "*"
serde = { version = "1", features = ["derive"] }
serde_json = "1"
anyhow = "1"
file-id = "*"
tracing = "0.1"
tokio = { version = "1", features = ["rt-multi-thread", "macros", "net", "time", "sync", "fs"] }
axum = "*"
qbit = "*"
dioxus = { version = "*", default-features = false, features = ["macro", "html", "signals", "hooks", "launch"] }
