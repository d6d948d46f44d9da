[package]
name = "pbrt"
version = "0.1.0"
edition = "2021"
publish = false

[dependencies]
log = "0.4"
thiserror = "1"
lazy_static = "1"
memmap = "0.7"
image = { version = "0.21", default-features = false, features = ["png_codec"] }
structopt = "0.3"
stderrlog = "0.5"
