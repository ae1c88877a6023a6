[package]
name = "rsenv"
version = "0.1.0"
edition = "2021"
publish = false

[dependencies]
sha2 = "0.10"
hex = "0.4"
shellexpand = "3"
pathdiff = "0.2"
hostname = "0.4"
chrono = "0.4"
similar = "2"
anyhow = "1"
thiserror = "2"
clap = { version = "4", features = ["derive"] }
clap_complete = "4"
colored = "2"
serde = { version = "1", features = ["derive"] }
toml = "0.8"
config = "0.14"
directories = "5"
walkdir = "2"
tempfile = "3"
tracing = "0.1"
tracing-subscriber = "0.3"
crossterm = "0.27"
regex = "1"
rayon = "1"
termtree = "0.4"
generational-arena = "0.2"
camino = "1"
log = "0.4"
skim = { version = "0.10", default-features = false }
