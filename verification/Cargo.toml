[package]
name = "kraken"
version = "0.1.0"
edition = "2021"
publish = false

[dependencies]
anyhow = "=1.0.104"
clap = { version = "=4.6.7", features = ["derive"] }
cliclack = "=0.1.13"
colorful = "=0.2.2"
console = "=0.15.11"
prettyplease = "=0.2.37"
proc-macro2 = "=1.0.107"
syn = { version = "=2.0.119", features = ["full"] }
toml_edit = "=0.21.1"
