[package]
name = "pocket_repo"
version = "0.1.0"
edition = "2021"
publish = false

[dependencies]
scraper = "*"
serde_urlencoded = "0.7"
nucleo-matcher = "0.3"
syntect = { version = "5", default-features = false, features = ["default-syntaxes", "default-themes", "html", "regex-fancy"] }
serde = { version = "1", features = ["derive"] }
serde_json = "1"
toml = "*"
git2 = { version = "0.20", default-features = false, features = ["vendored-libgit2"] }
maud = "*"
axum = "0.8"
tokio = { version = "1", features = ["macros", "rt-multi-thread", "net"] }
tower-http = { version = "0.6", features = ["compression-br", "compression-gzip", "compression-zstd"] }
