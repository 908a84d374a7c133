[package]
name = "dice_bot"
version = "0.1.0"
edition = "2021"
publish = false

[dependencies]
rand = "=0.8.8"
serde = { version = "=1.0.229", features = ["derive"] }
serde_json = "=1.0.151"
serde-aux = "4"
anyhow = "=1.0.104"
glob = "=0.3.4"
clap = { version = "=4.5.61", features = ["derive", "env"] }
log = "=0.4.34"
pretty_env_logger = "=0.5.0"
takecell = "=0.1.1"
teloxide = { version = "=0.12.2", default-features = false, features = ["macros", "rustls", "ctrlc_handler", "cache-me", "throttle"] }
tokio = { version = "=1.53.2", features = ["macros", "rt-multi-thread"] }
