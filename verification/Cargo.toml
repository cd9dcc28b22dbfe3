[package]
name = "mc_server_wrapper"
version = "0.1.0"
edition = "2021"
publish = false

[dependencies]
time = { version = "=0.3.55", features = ["local-offset", "formatting", "parsing", "macros"] }
log = "=0.4.35"
tokio = { version = "=1.54.1", features = ["full"] }
structopt = "=0.3.26"
textwrap = "=0.16.4"
chrono = "=0.4.45"
