[package]
name = "mirrorlane"
version = "0.1.0"
edition = "2021"
publish = false

[dependencies]
async-trait = "0.1"
clap = { version = "4", features = ["derive"] }
rusqlite = { version = "*", features = ["bundled"] }
serde = { version = "1", features = ["derive"] }
serde_json = "1"
tokio = { version = "1", features = ["macros", "rt-multi-thread", "time"] }
ureq = "2"
worklane = "*"
worklane-core = "*"
worklane-memory = "*"
worklane-postgres = "*"
worklane-redis = "*"
worklane-sqlite = "*"
