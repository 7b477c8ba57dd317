[package]
name = "turnip_text"
version = "0.1.0"
edition = "2021"
publish = false

[dependencies]
lexer-rs = "*"
anyhow = "*"
argh = "*"
codespan-reporting = "*"
thiserror = "*"
