[package]
name = "portfolio_qp"
version = "0.1.0"
edition = "2021"

[dependencies]
clarabel = "*"
wasm-bindgen = "*"
