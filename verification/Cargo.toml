[package]
name = "sifli-flash-table"
version = "0.1.0"
edition = "2021"
publish = false

[dependencies]
cortex-m = "=0.7.10"
embassy-hal-internal = "=0.2.0"
embassy-time = "=0.4.0"
sifli-pac = { version = "=0.2.0", features = ["sf32lb52x"] }
