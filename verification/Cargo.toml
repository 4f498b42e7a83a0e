[package]
name = "cachecannon"
version = "0.1.0"
edition = "2021"
publish = false

[dependencies]
chrono = "=0.4.45"
clap = { version = "=4.6.7", features = ["derive"] }
crossbeam-channel = "=0.5.17"
ctrlc = "=3.5.2"
hdf5-metno = "=0.15.1"
ketama = "=0.0.2"
libc = "=0.2.191"
metriken = "=0.9.2"
metriken-exposition = { version = "=0.16.1", features = ["msgpack", "parquet"] }
metriken-query = "=0.43.1"
ndarray = "=0.17.2"
rand = "=0.9.5"
rand_distr = "=0.5.1"
rand_xoshiro = "=0.7.0"
ratelimit = "=2.0.0"
resp-proto = "=0.0.2"
ringline = { version = "=0.6.9", features = ["timestamps"] }
ringline-memcache = { version = "=0.7.2", features = ["timestamps"] }
ringline-momento = "=0.3.0"
ringline-ping = "=0.6.0"
ringline-redis = { version = "=0.7.1", features = ["timestamps"] }
rustls = { version = "=0.23.46", default-features = false, features = ["logging", "ring", "std", "tls12"] }
serde = { version = "=1.0.229", features = ["derive"] }
serde_json = "=1.0.154"
thiserror = "=2.0.21"
tokio = { version = "=1.54.1", features = ["full"] }
toml = "0.9"
tracing = "=0.1.44"
webpki-roots = "=1.0.10"
