[package]
name = "csv_importer"
version = "0.1.0"
edition = "2021"
publish = false

[dependencies]
csv = "1"
chrono = "0.4"
clap = "2"
env_logger = "0.10"
log = "0.4"
serde = { version = "1", features = ["derive"] }
sqlx = { version = "0.6", features = ["postgres", "runtime-tokio-rustls", "chrono"] }
tinytemplate = "1"
tokio = { version = "1", features = ["macros", "rt-multi-thread"] }
