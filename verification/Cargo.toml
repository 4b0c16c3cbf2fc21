[package]
name = "things_cloud"
version = "0.1.0"
edition = "2021"
publish = false

[dependencies]
serde_json = "1"
serde = { version = "1", features = ["derive"] }
serde_repr = "*"
serde_path_to_error = "*"
thiserror = "*"
reqwest = { version = "*", default-features = false, features = ["json"] }
