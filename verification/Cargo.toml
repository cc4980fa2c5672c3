[package]
name = "open_build_service_mock"
version = "0.1.0"
edition = "2021"
publish = false

[dependencies]
rand = "0.8"
base16ct = { version = "0.2", features = ["alloc"] }
md-5 = "0.10"
xml-builder = "0.5"
quick-xml = { version = "*", features = ["serialize"] }
serde = { version = "1", features = ["derive"] }
http-types = "2"
wiremock = "0.5"
tokio = { version = "1", features = ["full"] }
url = "2"
anyhow = "1"
structopt = "0.3"
open-build-service-api = "0.1"
futures = "0.3"
