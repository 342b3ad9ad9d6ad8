[package]
name = "mdx"
version = "0.1.0"
edition = "2021"
publish = false

[dependencies]
flate2 = "*"
minilzo-rs = "*"
ripemd = "*"
rusqlite = { version = "*", features = ["bundled"] }
encoding = "*"
r2d2 = "*"
r2d2_sqlite = { version = "*", features = ["bundled"] }
anyhow = "*"
rand = "*"
serde = { version = "*", features = ["derive"] }
clap = { version = "*", features = ["derive"] }
axum = "*"
tokio = { version = "*", features = ["rt-multi-thread", "macros", "net"] }
tower-http = { version = "*", features = ["fs", "trace"] }
tracing = "*"
tracing-subscriber = { version = "*", features = ["env-filter", "fmt"] }
