[package]
name = "httputil"
version = "0.1.0"
edition = "2021"
publish = false

[dependencies]
form_urlencoded = "*"
percent-encoding = "*"
hyper = { version = "0.14", features = ["full"] }
chrono = "*"
url = "*"
