[package]
name = "parachain_validation"
version = "0.1.0"
edition = "2021"

[dependencies]
parity-scale-codec = "3"
sp-core = "*"
parking_lot = "0.12"
futures = "0.3"
futures-timer = "3"
exit-future = "0.2"
log = "0.4"

[dev-dependencies]
sp-keyring = "*"
