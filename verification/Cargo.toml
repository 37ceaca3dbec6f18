[package]
name = "aggregator"
version = "0.1.0"
edition = "2021"
publish = false

[dependencies]
anyhow = "=1.0.104"
async-trait = "=0.1.92"
axum = { version = "=0.6.20", default-features = false }
bigdecimal = "=0.3.1"
chrono = { version = "=0.4.45", default-features = false, features = ["clock", "std"] }
sqlx = { version = "=0.7.4", default-features = false, features = ["postgres", "runtime-tokio", "bigdecimal", "chrono"] }
thiserror = "=1.0.69"
tokio = { version = "=1.54.1", features = ["macros", "rt-multi-thread", "time"] }
tracing = "=0.1.44"
