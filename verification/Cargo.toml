[package]
name = "goodreads_sh"
version = "0.1.0"
edition = "2021"
publish = false

[dependencies]
serde = { version = "1", features = ["derive"] }
regex = "1"
roxmltree = "*"
url = "2"
oauth1 = "*"
oauth-client = "*"
reqwest = { version = "*", default-features = false, features = ["blocking"] }
config = { version = "*", default-features = false, features = ["toml"] }
dirs = "*"
toml = "*"
structopt = "*"
