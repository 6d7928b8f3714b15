[package]
name = "bambam"
version = "0.1.0"
edition = "2021"
publish = false

[dependencies]
chrono = "=0.4.45"
skiplist = "=0.6.0"
regex = "=1.13.1"
serde = { version = "=1.0.229", features = ["derive"] }
serde_json = "=1.0.154"
csv = "=1.4.0"
flate2 = "=1.1.10"
zip = "=8.6.0"
gtfs-structures = { version = "=0.52.0", default-features = false }
clap = { version = "=4.6.7", features = ["derive"] }
log = "=0.4.35"
geo = "=0.33.1"
geo-types = "=0.7.20"
geozero = "=0.15.1"
wkt = "=0.14.0"
rstar = "*"
itertools = "*"
rayon = "=1.12.0"
kdam = "=0.6.4"
uom = "=0.38.0"
ordered-float = "=5.5.1"
thiserror = "*"
routee-compass-core = "=0.19.5"
