[package]
name = "nsbox"
version = "0.1.0"
edition = "2021"
publish = false

[dependencies]
libc = "0.2"
log = "0.4"
nix = "0.24"
stderrlog = "0.5"
