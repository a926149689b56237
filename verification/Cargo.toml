[package]
name = "tmbook"
version = "0.1.0"
edition = "2021"
publish = false

[dependencies]
clap = "=3.2.25"
flate2 = "1"
git2 = "=0.21.0"
mdbook = { version = "=0.4.52", default-features = false }
mdbook-toc = "=0.14.2"
pulldown-cmark = "=0.9.6"
pulldown-cmark-to-cmark = "=10.0.4"
reqwest = { version = "=0.11.27", default-features = false }
serde = { version = "1", features = ["derive"] }
serde_json = "1"
tar = "0.4"
tokio = { version = "1", features = ["macros", "rt-multi-thread", "io-util", "process"] }
zip = "=0.6.6"
