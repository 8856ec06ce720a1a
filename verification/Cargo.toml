[package]
name = "fishy"
version = "0.1.0"
edition = "2021"
publish = false

[dependencies]
anyhow = "=1.0.104"
clap = { version = "=4.6.7", features = ["derive"] }
futures = "=0.3.34"
gql_client = { version = "=1.1.0", default-features = false }
hex = "=0.4.3"
indicatif = "=0.18.6"
p2panda-rs = { version = "=0.9.0", features = ["test-utils"] }
serde = { version = "=1.0.229", features = ["derive"] }
tokio = { version = "=1.53.2", features = ["macros", "rt-multi-thread"] }
toml = "=1.1.7"
