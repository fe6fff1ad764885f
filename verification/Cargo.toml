[package]
name = "hstr"
version = "0.1.0"
edition = "2021"
publish = false

[dependencies]
regex = "=1.13.1"
fuzzy-matcher = "=0.3.7"
unicode-width = "=0.2.2"
ncurses = "=5.101.0"
dirs = "=7.0.0"
libc = "=0.2.190"
setenv = "=0.1.2"
gethostname = "=1.1.0"
structopt = "=0.3.26"
anyhow = "=1.0.104"
