[package]
name = "mdbook-checklist"
version = "0.1.0"
edition = "2021"
publish = false

[dependencies]
mdbook = { version = "0.4", default-features = false }

[dev-dependencies]
regex = "1"
