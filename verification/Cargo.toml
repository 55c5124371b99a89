[package]
name = "uffd_handoff"
version = "0.1.0"
edition = "2021"
publish = false

[dependencies]
libc = "=0.2.191"
serde = { version = "=1.0.229", features = ["derive"] }
serde_json = "=1.0.154"
thiserror = "=2.0.21"
userfaultfd = { version = "=0.9.0", features = ["linux5_7", "linux5_13"] }
