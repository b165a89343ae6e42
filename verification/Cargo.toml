[package]
name = "collab_playlist"
version = "0.1.0"
edition = "2021"
publish = false

[dependencies]
chrono = "=0.4.45"
codee = { version = "0.2", features = ["json_serde"] }
console_error_panic_hook = "=0.1.7"
futures = "=0.3.34"
leptos = { version = "=0.6.15", features = ["csr"] }
leptos-use = "=0.13.13"
leptos_router = { version = "=0.6.15", features = ["csr"] }
random_color = "=0.8.0"
rgb = "=0.8.53"
rspotify = { version = "=0.13.3", default-features = false, features = ["client-reqwest", "reqwest-rustls-tls"] }
serde = { version = "=1.0.229", features = ["derive"] }
