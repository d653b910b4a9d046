[package]
name = "guicss"
version = "0.1.0"
edition = "2021"
publish = false

[dependencies]
lightningcss = "=1.0.0-alpha.72"
cssparser = "=0.37.0"
parcel_selectors = "=0.28.3"
crossbeam-channel = "=0.5.17"
notify = "=8.2.0"
