[package]
name = "conduit_bridge"
version = "0.1.0"
edition = "2021"
publish = false

[dependencies]
conduit = "=0.8.1"
hyper = "=0.10.16"
log = "=0.4.34"
semver = "=0.5.1"
unicase = "=2.10.0"
