[package]
name = "prompt_assembler"
version = "0.1.0"
edition = "2021"
publish = false

[dependencies]
anyhow = "1"
atty = "0.2"
camino = "1"
clap = { version = "4", features = ["derive"] }
clap_complete = "4"
directories = "*"
indexmap = { version = "2", features = ["serde"] }
minijinja = { version = "2", features = ["loader"] }
self_update = "*"
serde = { version = "1", features = ["derive"] }
serde_json = "1"
thiserror = "*"
time = { version = "0.3", features = ["formatting"] }
toml = "*"
