[package]
name = "fakepay"
version = "0.1.0"
edition = "2021"
publish = false

[dependencies]
form_urlencoded = "1"
wasmbus-rpc = "*"
wasmcloud-interface-httpserver = "*"
wasmcloud-examples-payments = "*"
