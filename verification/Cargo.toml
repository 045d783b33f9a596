[package]
name = "rainbow"
version = "0.1.0"
edition = "2021"
rust-version = "1.95"
publish = false

[dependencies]
clap = { version = "=4.6.7", features = ["derive", "env"] }
csv = "=1.4.0"
fake = { version = "=5.1.0", features = ["random_color"] }
reqwest = { version = "=0.12.28", features = ["json"] }
serde = { version = "=1.0.229", features = ["derive"] }
teloxide = "=0.17.0"
tokio = { version = "=1.54.1", features = ["fs", "rt-multi-thread"] }
# teloxide-core asks for takecell 0.1; 0.1.2 needs a newer compiler.
takecell = "=0.1.1"
