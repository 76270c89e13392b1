[package]
name = "joshuto"
version = "0.1.0"
edition = "2021"
publish = false

[dependencies]
fs_extra = "=1.3.0"
ncurses = "=5.101.0"
tui = { version = "=0.19.0", default-features = false }
