[package]
name = "sitegen"
version = "0.1.0"
edition = "2021"
publish = false

[dependencies]
pulldown-cmark = { version = "*", default-features = false, features = ["html"] }
time = { version = "0.3", features = ["formatting", "parsing", "macros", "serde"] }
toml = "*"
serde = { version = "1", features = ["derive"] }
tokio = { version = "1", features = ["fs", "rt-multi-thread", "macros"] }
log = "0.4"
env_logger = "*"
thiserror = "*"
