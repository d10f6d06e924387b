[package]
name = "cherenkov"
version = "0.1.0"
edition = "2021"
publish = false

[dependencies]
anstream = "*"
anyhow = "1"
clap = { version = "4", features = ["derive"] }
half = "2"
libc = "0.2"
minijinja = { version = "2", features = ["fuel", "loader"] }
minijinja-contrib = { version = "2", features = ["pycompat"] }
objc2 = "*"
objc2-foundation = "*"
objc2-metal = "*"
rand = "0.9"
ratatui = { version = "*", features = ["unstable-rendered-line-info"] }
serde = { version = "1", features = ["derive"] }
serde_json = "1"
tabled = "*"
textwrap = "*"
toml = "*"
tui-scrollview = "*"
