[package]
name = "rmf_workcell_format"
version = "0.1.0"
edition = "2021"
publish = false

[dependencies]
glam = { version = "0.24", features = ["serde"] }
rmf_site_format = "*"
serde = { version = "1", features = ["derive"] }
serde_json = "1"
thiserror = "1"
urdf-rs = "0.7"
