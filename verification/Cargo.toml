[package]
name = "chapter_titles"
version = "0.1.0"
edition = "2021"
publish = false

[dependencies]
walkdir = "*"
tempfile = "*"
