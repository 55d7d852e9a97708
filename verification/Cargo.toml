[package]
name = "isola"
version = "0.1.0"
edition = "2021"
publish = false

[dependencies]
anyhow = "=1.0.104"
bytes = "=1.12.1"
eventsource = { version = "=0.5.0", default-features = false }
futures = "*"
glob = "=0.3.4"
http = "=1.5.0"
http-body = "*"
http-body-util = "=0.1.5"
minicbor-serde = { version = "=0.7.2", features = ["std"] }
napi = { version = "=3.16.1", features = ["async", "serde-json"] }
napi-derive = "*"
parking_lot = "=0.13.0"
pyo3 = { version = "=0.30.1", features = ["abi3"] }
rquickjs = { version = "=0.14.0" }
serde = { version = "1", features = ["derive"] }
serde_json = "=1.0.154"
thiserror = "*"
tokio = { version = "=1.54.1", features = ["full"] }
tokio-stream = "*"
url = "=2.5.8"
wasmparser = "=0.263.0"
wasmtime = { version = "48", default-features = false, features = ["component-model", "async", "cranelift", "runtime"] }
wasmtime-wasi = { version = "48", default-features = false }
wit-component = "=0.263.0"
xshell = "=0.2.7"
