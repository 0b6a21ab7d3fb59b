[package]
name = "saf_builder"
version = "0.1.0"
edition = "2021"
publish = false

[dependencies]
csv = "=1.4.0"
encoding = "=0.2.33"
getopts = "=0.2.24"
glob = "=0.3.4"
handlebars = "=6.4.4"
zip = { version = "=9.0.5", default-features = false }
