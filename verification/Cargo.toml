[package]
name = "ncmerge"
version = "0.1.0"
edition = "2021"
publish = false

[dependencies]
libc = "0.2"
netcdf-sys = "*"
rocket = "0.5"
