[package]
name = "actor_dag"
version = "0.1.0"
edition = "2021"
publish = false

[dependencies]
dashmap = "*"
tokio = { version = "*", features = ["sync"] }
actix = "*"
actix-web = "*"
clap = { version = "*", features = ["derive"] }
env_logger = "*"
log = "*"
serde = { version = "*", features = ["derive"] }
serde_json = "*"
rand = "*"
petgraph = "*"
reqwest = { version = "*", default-features = false, features = ["json"] }
