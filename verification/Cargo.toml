[package]
name = "baryon"
version = "0.1.0"
edition = "2021"
publish = false

[dependencies]
memchr = "=2.8.3"
regex-automata = "=0.4.18"
ra_ap_syntax = "=0.0.300"
crossterm = "=0.28.1"
ratatui = "=0.29.0"
