[package]
name = "soda_tts"
version = "0.1.0"
edition = "2021"
publish = false

[dependencies]
anyhow = "1"
candle-core = "0.9"
candle-nn = "0.9"
hf-hub = { version = "0.4", default-features = false, features = ["ureq", "rustls-tls"] }
hound = "3.5"
ndarray = "0.16"
ort = { version = "=2.0.0-rc.10", default-features = false, features = ["std", "ndarray", "load-dynamic"] }
rand = "0.8"
rand_distr = "0.4"
regex = "1"
safetensors = "0.4"
serde = { version = "1", features = ["derive"] }
serde_json = "1"
tracing-subscriber = "0.3"
unicode-normalization = "0.1"
