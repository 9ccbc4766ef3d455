[package]
name = "bestls"
version = "0.1.0"
edition = "2021"
publish = false

[dependencies]
bytesize = "*"
chrono = { version = "0.4", default-features = false, features = ["std"] }
clap = { version = "4", features = ["derive"] }
clap_complete = "4"
dirs = "*"
nix = { version = "*", features = ["user"] }
owo-colors = "*"
rayon = "1"
serde = { version = "1", features = ["derive"] }
serde_json = "1"
strum = { version = "*", features = ["derive"] }
tabled = { version = "*", features = ["ansi"] }
toml = "*"
