[package]
name = "tweet_trajectories"
version = "0.1.0"
edition = "2021"
publish = false

[dependencies]
chrono = { version = "0.4", features = ["serde"] }
clap = { version = "3", features = ["derive"] }
eyre = "0.6"
geo = "0.23"
geo-types = "0.7"
geojson = { version = "0.24", features = ["geo-types"] }
nalgebra = "0.31"
ordered-float = "3"
serde = { version = "1", features = ["derive"] }
serde_json = "1"
statrs = "0.16"
uom = "0.33"
