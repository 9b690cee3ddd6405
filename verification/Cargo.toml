[package]
name = "generate_dev_update"
version = "0.1.0"
edition = "2021"
publish = false

[dependencies]
anyhow = "=1.0.104"
itertools = "=0.13.0"
lemmy_api_common = { version = "=0.19.20", default-features = false }
octocrab = "=0.40.0"
reqwest = { version = "=0.13.5", features = ["json"] }
tokio = { version = "=1.54.1", features = ["macros", "rt-multi-thread"] }
