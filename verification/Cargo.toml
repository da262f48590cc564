[package]
name = "pgtransfer"
version = "0.1.0"
edition = "2021"
publish = false

[dependencies]
anyhow = "=1.0.104"
chrono = "=0.4.45"
env_logger = "*"
log = "*"
structopt = "=0.3.26"
tokio = { version = "=1.53.2", features = ["macros", "rt-multi-thread"] }
tokio-postgres = { version = "=0.7.18", features = ["with-chrono-0_4", "with-uuid-1"] }
uuid = "=1.27.0"
