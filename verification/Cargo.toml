[package]
name = "forestair_ir"
version = "0.1.0"
edition = "2021"
publish = false

[dependencies]
esp-idf-hal = "*"
esp-idf-svc = "*"
esp-wifi-provisioning = "*"
log = "*"
