[package]
name = "spectacle"
version = "0.1.0"
edition = "2021"
publish = false

[dependencies]
im = "15"
proc-macro2 = "1"
proc-macro-error = "1"
quote = "1"
serde_json = "1"
syn = { version = "1", features = ["full"] }
