[package]
name = "harmonydesk"
version = "0.1.0"
edition = "2021"
publish = false

[dependencies]
sha2 = "0.10"
once_cell = "1"
thiserror = "1"
log = "0.4"
bytes = "1"
tokio = { version = "1", features = ["rt", "net", "time", "sync", "io-util", "macros"] }
napi-ohos = "*"
napi-derive-ohos = "*"
