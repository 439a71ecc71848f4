[package]
name = "git_perf"
version = "0.1.0"
edition = "2021"
publish = false

[dependencies]
regex = "=1.13.1"
toml_edit = "=0.21.1"
anyhow = "1"
average = "0.15"
backoff = "0.4"
bytesize = "1"
chrono = "0.4"
clap = { version = "4", features = ["derive"] }
config = { version = "0.14", default-features = false, features = ["toml"] }
defer = "0.2"
easy-cast = "=0.5.2"
dirs-next = "2"
env_logger = "0.11"
fundu = "2"
human-repr = "1"
itertools = "0.13"
log = "0.4"
plotly = "0.10"
quick-xml = { version = "0.36", features = ["serialize"] }
rand = "0.8"
readable = "0.16"
serde = { version = "1", features = ["derive"] }
serde_json = "1"
sparklines = "0.2"
thiserror = "1"
unindent = "0.2"
