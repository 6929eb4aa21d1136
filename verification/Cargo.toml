[package]
name = "symbolica_community"
version = "0.1.0"
edition = "2021"
publish = false

[dependencies]
symbolica = "*"
spenso = "*"
spenso-hep-lib = "*"
pyo3 = "*"
anyhow = "*"
