[package]
name = "portals"
version = "0.1.0"
edition = "2021"
publish = false

[dependencies]
guillotiere = "0.6"
vec-belt = "*"
async-channel = "2"
