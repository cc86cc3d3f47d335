[package]
name = "genkit"
version = "0.1.0"
edition = "2021"
publish = false

[dependencies]
pulldown-cmark = "*"
minijinja = "*"
html5ever = "0.26"
markup5ever_rcdom = "0.2.0"

[dependencies.syntect]
version = "*"
default-features = false
features = ["default-fancy", "html", "parsing"]
