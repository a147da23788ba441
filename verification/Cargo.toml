[package]
name = "radicle-surf"
version = "0.8.0"
edition = "2021"
publish = false

[dependencies]
git2 = { version = "*", default-features = false }
nonempty = "*"
radicle-git-ext = "*"
serde = { version = "1", features = ["derive"] }
thiserror = "1"
