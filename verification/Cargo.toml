[package]
name = "yaml_lint_core"
version = "0.1.0"
edition = "2021"
publish = false

[dependencies]
anyhow = "*"
clap = { version = "*", features = ["derive"] }
colored = "*"
is-terminal = "*"
serde_yaml = "*"
thiserror = "*"
walkdir = "*"
yaml-rust2 = "*"
