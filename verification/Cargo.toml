[package]
name = "ptah"
version = "0.1.0"
edition = "2021"
publish = false

[dependencies]
jiff = "=0.2.39"
getrandom = "=0.3.4"
serde = { version = "=1.0.229", features = ["derive"] }
serde_json = "=1.0.154"
semver = "=1.0.28"
pesde = "=0.7.4"
tokio = { version = "=1.54.1", features = ["full"] }
mlua = { version = "=0.12.2", features = ["luau", "async", "serialize"] }
toml_edit = "=0.23.9"
toml = "=0.9.12"
relative-path = "=2.0.3"
gix = { version = "=0.73.0", default-features = false }
reqwest = { version = "=0.12.28", default-features = false }
kstring = "=2.0.0"
