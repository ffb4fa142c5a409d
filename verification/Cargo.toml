[package]
name = "chameleon_voice"
version = "0.1.0"
edition = "2021"
publish = false

[dependencies]
actix-cors = "0.7"
actix-web = { version = "4", default-features = false, features = ["macros"] }
anyhow = "1"
byteorder = "1"
cpal = "0.15"
env_logger = { version = "0.11", default-features = false }
futures-util = "0.3"
log = "0.4"
num_cpus = "1"
reqwest = { version = "0.11", default-features = false, features = ["json", "rustls-tls"] }
ringbuf = "0.3"
serde_json = "1"
tokio = { version = "1", features = ["io-util", "macros", "process", "rt-multi-thread", "sync", "time"] }
tokio-stream = { version = "0.1", features = ["time"] }
unicode-normalization = "0.1"
url = "=2.5.2"
urlencoding = "2"
whisper-rs = { version = "0.14", default-features = false }
