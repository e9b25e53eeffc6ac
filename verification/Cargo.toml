[package]
name = "chr"
version = "1.0.0"
edition = "2021"
publish = false

[dependencies]
rusqlite = { version = "*", features = ["bundled"] }
zip = "*"
colored = "*"
dirs = "*"
minus = { version = "*", features = ["static_output"] }
structopt = "*"
serde = { version = "*", features = ["derive"] }
serde_json = "*"
reqwest = { version = "*", default-features = false, features = ["blocking"] }
