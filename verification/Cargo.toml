[package]
name = "zero_shell"
version = "0.1.0"
edition = "2021"
publish = false

[dependencies]
chrono = "0.4"
serde_json = "1"
libc = "0.2"
termion = "4"
terminal_size = "0.4"
dirs = "5"
home = "0.5"
whoami = "1"
uzers = "0.12"
xattr = "1"
filetime = "0.2"
