[package]
name = "tc_chain"
version = "0.1.0"
edition = "2021"
publish = false

[dependencies]
bytes = "=1.12.1"
destream = "=0.10.1"
destream_json = "=0.15.0"
freqfs = "=0.12.1"
futures = "=0.3.34"
pathlink = { version = "=0.5.0", features = ["stream"] }
safecast = "=0.2.3"
sha2 = "=0.10.9"
tc-error = "=0.13.1"
tokio = { version = "=1.54.1", features = ["fs", "io-util", "rt", "sync"] }
tokio-util = { version = "=0.7.20", features = ["io"] }
