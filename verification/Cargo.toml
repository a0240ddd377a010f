[package]
name = "options_sim"
version = "0.1.0"
edition = "2021"
publish = false

[dependencies]
rand = "=0.10.3"
rumqtt = "=0.30.1"
structopt = "=0.3.26"

[dev-dependencies]
serde = "=1.0.229"
serde_json = "=1.0.151"
