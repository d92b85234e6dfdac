[package]
name = "bevy_luau"
version = "0.1.0"
edition = "2021"
publish = false

[dependencies]
bevy = { version = "0.19", default-features = false, features = ["bevy_log"] }
lasso = "0.7"
smallvec = "1"
