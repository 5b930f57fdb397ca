[package]
name = "dwarf_jsondump"
version = "0.1.0"
edition = "2021"
publish = false

[dependencies]
gimli = "*"
rustc-demangle = "*"
object = "*"
memmap2 = "*"
getopts = "*"
serde = { version = "*", features = ["derive"] }
serde_json = "*"
