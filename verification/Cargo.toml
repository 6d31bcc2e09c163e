[package]
name = "schema_dumper"
version = "0.1.0"
edition = "2021"
publish = false

[dependencies]
anyhow = "1"
clap = { version = "4", features = ["derive"] }
log = "0.4"
memflow = "0.2"
memflow-native = "*"
simplelog = "0.12"
