[package]
name = "tagver"
version = "0.1.0"
edition = "2021"
publish = false

[dependencies]
clap = { version = "4", features = ["derive"] }
const_format = "*"
oci-client = "*"
pipecheck = "*"
tokio = { version = "1", features = ["rt-multi-thread", "macros", "sync"] }
