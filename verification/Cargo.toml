[package]
name = "cargo_unused_workspace_deps"
version = "0.1.0"
edition = "2021"
publish = false

[dependencies]
toml = "*"
toml_edit = "*"
cargo_metadata = "*"
clap = { version = "*", features = ["derive"] }
