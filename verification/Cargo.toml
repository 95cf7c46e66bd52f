[package]
name = "dwarf"
version = "0.1.0"
edition = "2021"
publish = false

[dependencies]
gimli = "=0.34.0"
object = "*"
wasmparser = "*"
