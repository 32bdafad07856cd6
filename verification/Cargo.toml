[package]
name = "editwheel"
version = "0.1.0"
edition = "2021"
publish = false

[dependencies]
base64 = "=0.22.1"
csv = "=1.4.0"
elb = "=0.4.1"
glob = "=0.3.4"
sha2 = "=0.10.9"
thiserror = "=1.0.69"
zip = { version = "=2.6.1", default-features = false, features = ["deflate"] }
