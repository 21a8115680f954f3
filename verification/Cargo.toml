[package]
name = "ocinoco"
version = "0.1.0"
edition = "2021"
publish = false

[dependencies]
anyhow = "=1.0.104"
bytes = "=1.12.1"
clap = { version = "=4.6.7", features = ["derive"] }
dashmap = "=6.2.1"
docker_credential = "=1.4.0"
oci-client = "=0.18.0"
oci-spec = "=0.10.0"
pathdiff = "=0.2.3"
rayon = "=1.12.0"
sha2 = "=0.11.1"
tar = "=0.4.46"
tokio = { version = "=1.54.1", features = ["macros", "rt-multi-thread"] }
tracing = "=0.1.44"
tracing-subscriber = { version = "=0.3.23", features = ["env-filter"] }
zstd = "=0.14.3"
