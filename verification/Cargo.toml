[package]
name = "rssss"
version = "0.1.0"
edition = "2021"
publish = false

[dependencies]
anyhow = "*"
dirs = "*"
git2 = "*"
structopt = "*"

[dev-dependencies]
opml = "*"
rss = "*"
