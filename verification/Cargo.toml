[package]
name = "mops_cli"
version = "0.1.0"
edition = "2021"
publish = false

[dependencies]
anyhow = "*"
async-trait = "*"
candid = "=0.10.37"
candid_parser = "*"
clap = { version = "*", features = ["derive"] }
console = "*"
flate2 = "*"
futures = "*"
ic-agent = "*"
indicatif = "*"
reqwest = { version = "*", default-features = false }
semver = "=1.0.28"
serde = { version = "*", features = ["derive"] }
serde_bytes = "*"
serde_json = "*"
tar = "*"
tokio = { version = "*", features = ["macros", "rt-multi-thread"] }
toml_edit = { version = "*", features = ["serde"] }
