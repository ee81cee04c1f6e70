[package]
name = "kdbx_xml"
version = "0.1.0"
edition = "2021"
publish = false

[dependencies]
base64 = "0.13"
chrono = { version = "0.4", default-features = false, features = ["std"] }
secstr = "*"
xml-rs = "0.8"
