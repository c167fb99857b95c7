[package]
name = "galeforce_compiler"
version = "0.1.0"
edition = "2021"
publish = false

[dependencies]
base64 = "0.22"
lightningcss = { version = "=1.0.0-alpha.72", default-features = false, features = ["sourcemap"] }
parcel_sourcemap = "*"
rustc-hash = "2"
serde = { version = "1", features = ["derive"] }
serde_json = "1"
smallvec = "1"
