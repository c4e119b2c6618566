[package]
name = "nu_plugin_unzip"
version = "0.1.0"
edition = "2021"
publish = false

[dependencies]
zip = "=8.6.0"
chrono = "=0.4.45"
