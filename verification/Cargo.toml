[package]
name = "rskynet"
version = "0.1.0"
edition = "2021"
publish = false

[dependencies]
async-trait = "=0.1.92"
backtrace = "=0.3.77"
bytes = "=1.12.1"
chrono = "=0.4.45"
crash-handler = "=0.8.1"
crossbeam-queue = "=0.3.14"
futures-executor = "=0.3.34"
inventory = "=0.3.25"
libc = "=0.2.191"
minidump = "=0.27.0"
minidump-processor = "=0.27.0"
minidump-unwind = { version = "=0.27.0", features = ["debuginfo"] }
minidumper = "=0.11.0"
mio = { version = "1", features = ["os-poll", "net"] }
proc-macro2 = "=1.0.107"
quinn-proto = "=0.11.19"
quote = "=1.0.47"
serde = { version = "=1.0.229", features = ["derive"] }
serde_json = "=1.0.154"
signal-hook = "*"
syn = { version = "2", features = ["full"] }
thiserror = "=2.0.21"
toml = "=1.1.8+spec-1.1.0"
tungstenite = "=0.30.0"
ureq-proto = "=0.7.1"

[dev-dependencies]
rcgen = { version = "0.13", default-features = false, features = ["crypto", "ring"] }
rustls = { version = "=0.23.46", default-features = false, features = ["ring", "std"] }
