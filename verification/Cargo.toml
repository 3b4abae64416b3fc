[package]
name = "geoarrow"
version = "0.1.0"
edition = "2021"
publish = false

[dependencies]
arrow-array = "*"
arrow-buffer = "*"
arrow-schema = "*"
arrow2 = "*"
bumpalo = { version = "*", features = ["collections"] }
geo = "*"
geos = "*"
geozero = { version = "*", features = ["with-wkb"] }
pyo3 = "*"
wasm-bindgen = "*"
