[package]
name = "difftastic"
version = "0.1.0"
edition = "2021"
publish = false

[dependencies]
diff = "0.1"
owo-colors = "*"
term_size = "0.3"
clap = "2"
