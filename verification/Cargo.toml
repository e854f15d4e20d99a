[package]
name = "timewrap"
version = "0.1.0"
edition = "2021"
publish = false

[dependencies]
hashbrown = "=0.17.1"
parking_lot = "=0.13.0"
futures = "=0.3.34"
