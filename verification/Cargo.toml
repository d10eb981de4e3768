[package]
name = "wambo"
version = "0.1.0"
edition = "2021"
publish = false

[dependencies]
ratatui = "*"
crossterm = "*"
fraction_list_fmt_align = "*"
