[package]
name = "geoindex"
version = "0.1.0"
edition = "2021"
publish = false

[dependencies]
geo = "=0.33.1"
geo-types = { version = "=0.7.20", features = ["serde"] }
rstar = "=0.13.0"
url = "=1.7.2"
cadence = "=0.19.1"
chrono = "=0.4.45"
clap = "=2.34.0"
env_logger = "=0.6.2"
failure = "=0.1.8"
http = "=0.1.21"
hyper = "=0.12.36"
log = "=0.4.34"
serde = "=1.0.229"
serde_derive = "=1.0.229"
serde_json = "=1.0.154"
url_serde = "=0.2.0"
