[package]
name = "dwarf_import"
version = "0.1.0"
edition = "2021"
publish = false

[dependencies]
gimli = { version = "0.27", default-features = false, features = ["read", "std"] }
