[package]
name = "protoc_gen_axum_connect"
version = "0.1.0"
edition = "2021"
publish = false

[dependencies]
heck = "*"
pbjson-build = "*"
proc-macro2 = "*"
prost = "*"
prost-build = "*"
prost-types = "*"
protoc-gen-prost = "*"
quote = "*"
syn = { version = "*", features = ["full"] }
