[package]
name = "list_column"
version = "0.1.0"
edition = "2021"
publish = false

[dependencies]
polars-core = { version = "=0.29.0", default-features = false, features = ["private", "diff"] }

[dev-dependencies]
arrow2 = { version = "=0.17.0", default-features = false }
polars-arrow = "=0.29.0"
