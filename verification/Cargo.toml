[package]
name = "crust"
version = "0.1.0"
edition = "2021"
publish = false

[dependencies]
rand = "=0.3.23"
crossbeam = "=0.2.12"
time = "=0.1.45"
futures = "=0.1.31"
rustc-serialize = "=0.3.25"
void = "=1.0.2"
config_file_handler = "=0.11.0"
serde = { version = "=1.0.229", features = ["derive"] }
serde_json = "=1.0.154"
