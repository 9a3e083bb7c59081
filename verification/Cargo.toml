[package]
name = "buildkite_jobify"
version = "0.6.1"
edition = "2021"
publish = false

[dependencies]
anyhow = "=1.0.104"
app_dirs2 = "=2.5.5"
base64 = "=0.13.1"
bytes = "=1.12.1"
camino = "=1.2.6"
clap = { version = "=4.6.7", features = ["derive"] }
flate2 = "=1.1.10"
futures = "=0.3.34"
graphql_client = { version = "=0.11.0", default-features = false }
http = "=0.2.12"
k8s-openapi = { version = "=0.16.0", features = ["v1_22"] }
lru_time_cache = "=0.11.11"
openssl = "=0.10.82"
reqwest = { version = "=0.11.27", features = ["json", "native-tls"] }
serde = { version = "=1.0.229", features = ["derive"] }
serde_json = "=1.0.154"
serde_yaml = "=0.8.26"
tame-oauth = { version = "=0.9.6", features = ["gcp"] }
tar = "=0.4.46"
tokio = { version = "=1.54.1", features = ["rt-multi-thread", "macros", "time"] }
toml = "=0.5.11"
tracing = "=0.1.44"
tracing-subscriber = { version = "=0.3.23", features = ["env-filter", "json"] }
twox-hash = "=1.6.3"
uuid = "=1.29.0"
