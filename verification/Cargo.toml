[package]
name = "sac_analysis"
version = "0.1.0"
edition = "2021"
publish = false

[dependencies]
tf-demo-parser = "*"
serde = { version = "1", features = ["derive"] }
main_error = "*"
