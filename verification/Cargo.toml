[package]
name = "radio_utils"
version = "0.1.0"
edition = "2021"
publish = false

[dependencies]
clap = { version = "4", features = ["derive"] }
crossbeam-channel = "0.5"
env_logger = "0.11"
heapless = "0.8"
if-addrs = "0.13"
libm = "0.2"
log = "0.4"
midir = "0.10"
num-complex = "0.4"
rand = "0.9"
rand_distr = "0.5"
ringbuf = "0.4"
serde = { version = "1", features = ["derive"] }
serde_json = "1"
serialport = { version = "4", default-features = false }
thiserror = "2"
tokio = { version = "1", features = ["net", "rt", "rt-multi-thread", "macros", "sync", "time", "signal"] }
web-time = "1"
