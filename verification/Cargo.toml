[package]
name = "c_borrow_checker"
version = "0.1.0"
edition = "2021"
publish = false

[dependencies]
lang-c = "*"
