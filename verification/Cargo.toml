[package]
name = "git-config"
version = "0.1.0"
edition = "2021"
publish = false

[dependencies]
bstr = { version = "=0.2.17", default-features = false, features = ["std"] }
git-attributes = "=0.2.0"
thiserror = "=1.0.69"
