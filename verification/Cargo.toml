[package]
name = "actson"
version = "2.0.0"
edition = "2021"
publish = false

[dependencies]
anyhow = "1"
btoi = "0.4"
clap = { version = "4", features = ["derive"] }
num-traits = "0.2"
ringbuffer = "0.14"
serde = { version = "1", features = ["derive"] }
serde_json = "1"
thiserror = "1"
tokio = { version = "1", features = ["fs", "io-util", "macros", "rt", "rt-multi-thread", "sync"] }

[dev-dependencies]
dtoa = "1"
