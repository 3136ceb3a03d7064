[package]
name = "pgn2csv"
version = "0.1.0"
edition = "2021"
publish = false

[dependencies]
anyhow = "=1.0.104"
bstr = "=1.13.1"
bstr_parse = "=0.1.0"
bzip2 = "=0.6.1"
csv = "=1.4.0"
globwalk = "=0.9.1"
indicatif = { version = "=0.18.6", features = ["rayon"] }
pgn-reader = "=0.26.0"
rayon = "=1.12.0"
serde = { version = "=1.0.229", features = ["derive"] }
zstd = "=0.14.0"
