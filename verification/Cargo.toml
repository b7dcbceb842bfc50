[package]
name = "bevy_app"
version = "0.1.0"
edition = "2021"
publish = false

[dependencies]
petgraph = "=0.8.3"
uuid = { version = "=1.29.0", features = ["v4"] }
toml_edit = "=0.25.17"
thiserror = "=2.0.21"
proc-macro2 = "1"
quote = "1"
syn = { version = "2", features = ["full"] }
