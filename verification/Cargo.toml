[package]
name = "subxt_events"
version = "0.1.0"
edition = "2021"
publish = false

[dependencies]
parity-scale-codec = { version = "=2.3.1", features = ["derive", "full"] }
frame-support = "=3.0.0"
sp-runtime = "=3.0.0"
hex = "=0.4.3"
log = "=0.4.35"
# Not used here: later versions do not build with sp-core and the macros of frame-support 3.0.0.
substrate-bip39 = "=0.4.2"
syn = "=1.0.60"
