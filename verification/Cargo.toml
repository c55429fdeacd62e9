[package]
name = "septem"
version = "0.1.0"
edition = "2021"
publish = false

[dependencies]
async-trait = "=0.1.92"
chrono = "=0.4.45"
csv = "=1.4.0"
futures = "=0.3.34"
libc = "=0.2.190"
serde = { version = "=1.0.229", features = ["derive"] }
serde_derive = "=1.0.229"
signal-hook = "=0.3.18"
signal-hook-tokio = { version = "=0.3.1", features = ["futures-v0_3"] }
structopt = "=0.3.26"
thiserror = "=1.0.69"
tokio = { version = "=1.53.2", features = ["rt-multi-thread", "macros", "sync", "time"] }
toml = "=0.5.11"
xcb = "=0.9.0"
xcb-util = { version = "=0.3.0", features = ["ewmh"] }
