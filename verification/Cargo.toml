[package]
name = "ci_tracer"
version = "0.1.0"
edition = "2021"
publish = false

[dependencies]
anyhow = "1"
aya = "0.13"
aya-ebpf = "0.1"
chrono = "0.4"
clap = { version = "4", features = ["derive"] }
libc = "0.2"
serde = { version = "1", features = ["derive"] }
serde_json = "1"
sha2 = "0.10"
tiny_http = "0.12"
tokio = { version = "1", features = ["rt", "macros", "signal", "time"] }
ureq = "2"
uuid = { version = "1", features = ["v4"] }
