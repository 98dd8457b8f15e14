[package]
name = "oci_rootfs"
version = "0.1.0"
edition = "2021"
publish = false

[dependencies]
sha2 = "0.10"
hex = "0.4"
zeroize = "1"
subtle = "2"
serde = { version = "1", features = ["derive"] }
serde_json = "1"
reqwest = { version = "0.12", features = ["json"] }
tokio = { version = "1", features = ["full"] }
axum = "0.7"
tower-http = { version = "0.5", features = ["cors", "fs"] }
walkdir = "2"
dirs-next = "2"
flate2 = "1"
tar = "0.4"
chrono = "0.4"
tracing = "0.1"
bytes = "1"
thiserror = "1"
