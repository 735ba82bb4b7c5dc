[package]
name = "pk_backend_moss"
version = "0.1.0"
edition = "2021"
publish = false

[dependencies]
eyre = "=0.6.14"
fs-err = "=3.3.2"
glib-sys = "=0.20.10"
itertools = "=0.14.0"
url = "=2.5.8"
