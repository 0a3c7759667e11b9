[package]
name = "voxpdf-core"
version = "0.1.0"
edition = "2021"
publish = false

[dependencies]
ascii85 = "0.2"
flate2 = "1"
lopdf = "0.32"
mupdf = "*"
rayon = "1"
regex = "1"
serde = { version = "1", features = ["derive"] }
thiserror = "1"
