[package]
name = "ratchet_dispatcher"
version = "0.1.0"
edition = "2021"
publish = false

[dependencies]
anyhow = "=1.0.104"
clap = { version = "=4.6.7", features = ["derive"] }
clap-verbosity-flag = "=3.0.4"
dotenv = "=0.15.0"
env_logger = "=0.11.11"
log = "=0.4.34"
octocrab = "=0.47.1"
tokio = { version = "=1.54.1", features = ["macros", "rt-multi-thread"] }
