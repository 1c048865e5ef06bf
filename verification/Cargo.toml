[package]
name = "ui_state"
version = "0.1.0"
edition = "2021"
publish = false

[dependencies]
gloo-timers = { version = "0.2", features = ["futures"] }
leptos = { version = "0.4", features = ["csr"] }
leptos_meta = "0.4"
uuid = { version = "1", features = ["v4"] }
