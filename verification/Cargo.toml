[package]
name = "wry_cmd"
version = "0.1.0"
edition = "2021"
publish = false

[dependencies]
futures = "=0.3.34"
http = "=1.5.0"
inventory = "=0.3.25"
once_cell = "=1.21.4"
percent-encoding = "=2.3.2"
proc-macro2 = "=1.0.107"
quote = "=1.0.47"
serde_json = "=1.0.154"
syn = { version = "=2.0.119", features = ["full"] }
walkdir = "=2.5.0"
wry = "=0.57.1"
