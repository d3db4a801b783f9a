[package]
name = "stackable-odbc-core"
version = "0.1.0"
edition = "2021"
publish = false

[dependencies]
odbc-sys = "*"
snafu = "*"
tracing = "*"
