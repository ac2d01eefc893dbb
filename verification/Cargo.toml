[package]
name = "flint"
version = "0.1.0"
edition = "2021"
publish = false

[dependencies]
mlua = { version = "*", features = ["lua54", "vendored", "serialize"] }
serde_json = "*"
serde = { version = "*", features = ["derive"] }
toml = "*"
directories = "*"
threadpool = "*"
