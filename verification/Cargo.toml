[package]
name = "starify"
version = "0.1.0"
edition = "2021"
publish = false

[dependencies]
argh = "=0.1.19"
async-trait = "=0.1.92"
axum = "=0.6.20"
axum-extra = { version = "=0.8.0", features = ["cookie"] }
axum-login = "=0.9.0"
chrono = "=0.4.45"
color-eyre = "=0.6.5"
console_error_panic_hook = "0.1"
futures = "=0.3.34"
http = "=0.2.12"
leptos = { version = "=0.5.7", features = ["ssr"] }
leptos_axum = "=0.5.7"
leptos_meta = { version = "=0.5.7", features = ["ssr"] }
leptos_router = { version = "=0.5.7", features = ["ssr"] }
mime_guess = "=2.0.5"
rspotify = { version = "=0.12.0", default-features = false, features = ["client-reqwest", "reqwest-rustls-tls"] }
serde = { version = "=1.0.229", features = ["derive"] }
sled = "=0.34.7"
thiserror = "=1.0.69"
time = "=0.3.55"
tokio = { version = "=1.54.1", features = ["fs", "macros", "rt-multi-thread", "time"] }
tower = "=0.4.13"
tracing = "=0.1.44"
tracing-subscriber = "=0.3.23"
tracing-subscriber-wasm = "0.1"
wasm-bindgen = "=0.2.129"
