[package]
name = "robco_term"
version = "0.1.0"
edition = "2021"
publish = false

[dependencies]
rand = "=0.10.3"
ncurses = "=5.101.0"
