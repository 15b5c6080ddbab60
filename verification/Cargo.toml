[package]
name = "git_sub"
version = "0.1.0"
edition = "2021"
publish = false

[dependencies]
git2 = "*"
regex = "*"
clap = { version = "*", features = ["derive"] }
chrono = "*"
termcolor = "*"
atty = "*"
