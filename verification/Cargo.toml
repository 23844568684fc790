[package]
name = "wgsl_bindgen"
version = "0.1.0"
edition = "2021"
publish = false

[dependencies]
naga = { version = "*", features = ["wgsl-in", "wgsl-out"] }
wgpu-types = "*"
proc-macro2 = "*"
quote = "*"
syn = { version = "*", features = ["full"] }
prettyplease = "*"
case = "*"
