[package]
name = "reina_core"
version = "0.1.0"
edition = "2021"
publish = false

[dependencies]
quick-xml = "0.37"
pinyin = "0.10"
serde = { version = "1", features = ["derive"] }
serde_json = "1"
chrono = "0.4"
log = "0.4"
tokio = { version = "1", features = ["fs", "rt", "macros"] }
reqwest = { version = "0.12", default-features = false }
async-trait = "0.1"
sea-orm = { version = "1", default-features = false, features = ["macros", "with-json", "sqlx-sqlite", "runtime-tokio-rustls"] }
sea-orm-migration = { version = "1", default-features = false }
