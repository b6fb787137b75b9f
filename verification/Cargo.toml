[package]
name = "ki2"
version = "0.1.0"
edition = "2021"
publish = false

[dependencies]
serde_json = "1"
thiserror = "*"
time = { version = "0.3", features = ["macros", "formatting", "local-offset"] }
libc = "0.2"
kiutils_sexpr = "*"
