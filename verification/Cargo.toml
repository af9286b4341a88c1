[package]
name = "interactive_regex"
version = "0.1.0"
edition = "2021"
publish = false

[dependencies]
regex = "=1.13.1"
colored = "=3.1.1"
clap = "=4.6.7"
glob = "=0.3.4"
csv = "=1.4.0"
termion = "=1.5.6"
tui = { version = "=0.19.0", default-features = false, features = ["termion"] }
