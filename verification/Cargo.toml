[package]
name = "droute"
version = "0.1.0"
edition = "2021"
publish = false

[dependencies]
zbus = "*"
zbus_xml = "*"
tokio = { version = "1", features = ["rt", "macros", "time"] }
color-eyre = "*"
