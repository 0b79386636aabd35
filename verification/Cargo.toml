[package]
name = "hlsproxy"
version = "0.1.0"
edition = "2021"
publish = false

[dependencies]
reqwest = { version = "*", default-features = false }
rocket = "0.5"
rocket_dyn_templates = { version = "*", features = ["tera"] }
