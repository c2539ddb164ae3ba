[package]
name = "pallet_bets"
version = "0.1.0"
edition = "2021"
publish = false

[dependencies]
parity-scale-codec = "=3.7.5"
sp-arithmetic = "=29.0.0"
lite-json = "=0.2.0"
log = "=0.4.35"
frame-support = "*"
frame-system = "*"
sp-io = "*"
sp-core = "*"
sp-runtime = "*"
