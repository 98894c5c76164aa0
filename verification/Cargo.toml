[package]
name = "bkg_beam"
version = "0.1.0"
edition = "2021"
publish = false

[dependencies]
tokio = { version = "1", features = ["rt-multi-thread", "macros", "net", "io-util", "sync"] }
clap = { version = "4", features = ["derive"] }
env_logger = "0.11"
log = "0.4"
dioxus = { version = "0.7", default-features = false, features = ["macro", "html", "hooks", "signals", "launch"] }
