[package]
name = "format_date_for_irs"
version = "0.1.0"
edition = "2021"
publish = false

[dependencies]
cli-clipboard = "*"
