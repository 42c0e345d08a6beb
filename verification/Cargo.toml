[package]
name = "jlh_maps"
version = "0.1.0"
edition = "2021"
publish = false

[dependencies]
pmtiles = { version = "=0.26.0", default-features = false, features = ["write"] }
anyhow = "=1.0.104"
serde = { version = "=1.0.229", features = ["derive"] }
serde_json = "=1.0.154"
geojson = "=1.0.0"
geozero = { version = "*", default-features = false, features = ["with-mvt"] }
prost = "*"
