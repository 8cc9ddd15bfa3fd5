[package]
name = "over"
version = "0.1.0"
edition = "2021"
publish = false

[dependencies]
anyhow = "*"
async-trait = "*"
clap = { version = "*", features = ["derive", "env"] }
clap_complete = "*"
config = "*"
dialoguer = { version = "*", features = ["fuzzy-select"] }
dirs = "*"
futures = "*"
git2 = "*"
git2_credentials = "*"
glob = "*"
globset = "*"
indicatif = "*"
minijinja = "*"
noyalib = "*"
once_cell = "*"
serde = { version = "*", features = ["derive"] }
serde_yml = "*"
termtree = "*"
tokio = { version = "*", features = ["full"] }
toml = "*"
tracing = "*"
walkdir = "*"
which = "*"
