[package]
name = "rapid_qoi"
version = "0.1.0"
edition = "2021"
publish = false

[dependencies]
bytemuck = { version = "=1.25.2", features = ["min_const_generics"] }
image = { version = "=0.24.9", default-features = false, features = ["png"] }
qoi = "0.4"
