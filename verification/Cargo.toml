[package]
name = "distance-cartogram"
version = "0.4.0"
edition = "2021"
publish = false

[dependencies]
geo-types = "0.7"
thiserror = "2"
rayon = "1"
csv = "1"
pcoa = "*"
